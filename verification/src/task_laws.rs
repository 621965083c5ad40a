//! What holds of the merged task list, and of the texts that tasks and CI outcomes
//! are read from.
use crate::entities::{CiOutcome, InboxReason, TaskView};
use crate::error::{answers_view, Error, ErrorView};
use crate::json::{decoded, JsonView};
use crate::notifications::outcome_of;
use crate::runner::{answers_batch, answers_in_order, answers_run, GhRunner};
use crate::tasks::{
    deduped, display_of, gathered, has_task, key_of, kind_of, lemma_deduped_keys, lesser, marked,
    owned_by, search_calls, search_result, searches_for, task_list, task_of, SearchView, TaskKind,
};
use crate::text::{
    decimal, decimal_nat, digit_char, has, is_digit, is_white, line_of, lossy_text, lower,
    trim_end, trim_start, trimmed,
};
use crate::text_laws::{the_first_segment_lies_before_the_first, without_any};
use vstd::prelude::*;

verus! {

// ----------------------------------------------------------------------------
// Batches
// ----------------------------------------------------------------------------

/// A runner that answers in order gives one answer per call of a batch, and the one
/// at a place answers the words of the call at that place.
pub proof fn batches_are_answered_in_order<R: GhRunner>(
    runner: &R,
    calls: Seq<Seq<Seq<char>>>,
    answers: Vec<Result<Vec<u8>, Error>>,
)
    requires
        answers_in_order(runner),
        answers_batch(runner, calls, answers),
    ensures
        answers@.len() == calls.len(),
        forall|i: int|
            0 <= i < answers@.len() ==> answers_run(runner, calls[i], #[trigger] answers@[i]),
{
    let batch = choose|batch: &[Vec<String>]|
        batch.deep_view() == calls && #[trigger] call_ensures(
            R::run_batch,
            (runner, batch),
            answers,
        );
    assert forall|i: int| 0 <= i < answers@.len() implies answers_run(
        runner,
        calls[i],
        #[trigger] answers@[i],
    ) by {
        assert(calls[i] == batch@[i].deep_view());
    }
}

// ----------------------------------------------------------------------------
// De-duplication
// ----------------------------------------------------------------------------

/// Ascending places in a list of that length.
pub open spec fn climbing(places: Seq<int>, len: nat) -> bool {
    &&& forall|j: int| 0 <= j < places.len() ==> 0 <= #[trigger] places[j] < len
    &&& forall|i: int, j: int| 0 <= i < j < places.len() ==> places[i] < places[j]
}

/// Whether the task at place `p` is the first one with its key.
pub open spec fn is_first(tasks: Seq<TaskView>, p: int) -> bool {
    forall|k: int| 0 <= k < p ==> key_of(#[trigger] tasks[k]) != key_of(tasks[p])
}

/// What de-duplication keeps are the first tasks with their key, in the order of
/// the list.
pub proof fn dedup_keeps_first_occurrences(tasks: Seq<TaskView>) -> (places: Seq<int>)
    ensures
        places.len() == deduped(tasks).len(),
        climbing(places, tasks.len()),
        forall|j: int|
            0 <= j < places.len() ==> deduped(tasks)[j] == tasks[#[trigger] places[j]] && is_first(
                tasks,
                places[j],
            ),
    decreases tasks.len(),
{
    if tasks.len() == 0 {
        Seq::empty()
    } else {
        let front = tasks.drop_last();
        let last = tasks.len() - 1;
        let head = dedup_keeps_first_occurrences(front);
        assert forall|j: int| 0 <= j < head.len() implies deduped(front)[j] == tasks[#[trigger]
        head[j]] && is_first(tasks, head[j]) by {
            assert(front[head[j]] == tasks[head[j]]);
            assert forall|k: int| 0 <= k < head[j] implies key_of(#[trigger] tasks[k]) != key_of(
                tasks[head[j]],
            ) by {
                assert(front[k] == tasks[k]);
            }
        }
        if has_task(front, key_of(tasks.last())) {
            head
        } else {
            assert(is_first(tasks, last)) by {
                assert forall|k: int| 0 <= k < last implies key_of(#[trigger] tasks[k]) != key_of(
                    tasks[last],
                ) by {
                    assert(front[k] == tasks[k]);
                }
            }
            head.push(last)
        }
    }
}

/// No two tasks share a key after de-duplication.
pub proof fn dedup_leaves_no_duplicates(tasks: Seq<TaskView>, i: int, j: int)
    requires
        0 <= i < j < deduped(tasks).len(),
    ensures
        key_of(deduped(tasks)[i]) != key_of(deduped(tasks)[j]),
{
    let places = dedup_keeps_first_occurrences(tasks);
    assert(places[i] < places[j]);
    assert(is_first(tasks, places[j]));
    assert(key_of(tasks[places[i]]) != key_of(tasks[places[j]]));
}

/// De-duplication loses no key: every task of the list is there after it, itself
/// or by an earlier one with the same key.
pub proof fn dedup_keeps_every_key(tasks: Seq<TaskView>, i: int)
    requires
        0 <= i < tasks.len(),
    ensures
        has_task(deduped(tasks), key_of(tasks[i])),
{
    lemma_deduped_keys(tasks, key_of(tasks[i]));
    assert(has_task(tasks, key_of(tasks[i])));
}

/// A list without duplicates stays as it is; so de-duplicating twice is the same
/// as once.
pub proof fn dedup_is_idempotent(tasks: Seq<TaskView>)
    ensures
        deduped(deduped(tasks)) == deduped(tasks),
{
    let d = deduped(tasks);
    assert forall|i: int, j: int| 0 <= i < j < d.len() implies key_of(#[trigger] d[i]) != key_of(
        #[trigger] d[j],
    ) by {
        dedup_leaves_no_duplicates(tasks, i, j);
    }
    lemma_dedup_distinct(d);
}

proof fn lemma_dedup_distinct(tasks: Seq<TaskView>)
    requires
        forall|i: int, j: int|
            0 <= i < j < tasks.len() ==> key_of(#[trigger] tasks[i]) != key_of(#[trigger] tasks[j]),
    ensures
        deduped(tasks) == tasks,
    decreases tasks.len(),
{
    if tasks.len() > 0 {
        let front = tasks.drop_last();
        assert forall|i: int, j: int| 0 <= i < j < front.len() implies key_of(#[trigger] front[i])
            != key_of(#[trigger] front[j]) by {
            assert(front[i] == tasks[i] && front[j] == tasks[j]);
        }
        lemma_dedup_distinct(front);
        assert(!has_task(front, key_of(tasks.last()))) by {
            assert forall|k: int| 0 <= k < front.len() implies key_of(#[trigger] front[k])
                != key_of(tasks.last()) by {
                assert(front[k] == tasks[k]);
                assert(tasks[tasks.len() - 1] == tasks.last());
            }
        }
        assert(front.push(tasks.last()) =~= tasks);
    } else {
        assert(deduped(tasks) =~= tasks);
    }
}

// ----------------------------------------------------------------------------
// My list
// ----------------------------------------------------------------------------

/// The tasks of the search at place `i`, where it has an answer that can be read.
pub open spec fn found_by(
    answers: Seq<Result<Seq<u8>, ErrorView>>,
    searches: Seq<SearchView>,
    i: int,
) -> Result<Seq<TaskView>, ErrorView> {
    match answers[i] {
        Ok(raw) => search_result(raw, searches[i].kind, searches[i].reason),
        Err(e) => Err(e),
    }
}

/// The tasks gathered from the first `n` searches are there when each of those
/// searches has some; otherwise the first search without any decides the error.
pub proof fn gathering_fails_with_the_first_error(
    answers: Seq<Result<Seq<u8>, ErrorView>>,
    searches: Seq<SearchView>,
    n: nat,
)
    ensures
        match gathered(answers, searches, n) {
            Ok(_) => forall|i: int| 0 <= i < n ==> #[trigger] found_by(answers, searches, i) is Ok,
            Err(e) => exists|i: int|
                0 <= i < n && #[trigger] found_by(answers, searches, i) == Err::<
                    Seq<TaskView>,
                    ErrorView,
                >(e) && forall|k: int|
                    0 <= k < i ==> #[trigger] found_by(answers, searches, k) is Ok,
        },
    decreases n,
{
    if n > 0 {
        let m = (n - 1) as nat;
        gathering_fails_with_the_first_error(answers, searches, m);
        match gathered(answers, searches, m) {
            Ok(_) => {
                let f = found_by(answers, searches, m as int);
            },
            Err(e) => {},
        }
    }
}

/// The place of a found task among the gathered ones: behind those of earlier
/// searches, before those of later ones.
proof fn lemma_place_of_found(
    answers: Seq<Result<Seq<u8>, ErrorView>>,
    searches: Seq<SearchView>,
    n: nat,
    i: int,
    q: int,
) -> (p: int)
    requires
        gathered(answers, searches, n) is Ok,
        0 <= i < n,
        found_by(answers, searches, i) is Ok,
        0 <= q < found_by(answers, searches, i)->Ok_0.len(),
    ensures
        gathered(answers, searches, i as nat) is Ok,
        gathered(answers, searches, (i + 1) as nat) is Ok,
        p == gathered(answers, searches, i as nat)->Ok_0.len() + q,
        p < gathered(answers, searches, (i + 1) as nat)->Ok_0.len(),
        gathered(answers, searches, (i + 1) as nat)->Ok_0.len() <= gathered(
            answers,
            searches,
            n,
        )->Ok_0.len(),
        gathered(answers, searches, n)->Ok_0[p] == found_by(answers, searches, i)->Ok_0[q],
    decreases n,
{
    let m = (n - 1) as nat;
    let front = gathered(answers, searches, m)->Ok_0;
    if i < m {
        lemma_place_of_found(answers, searches, m, i, q)
    } else {
        front.len() + q
    }
}

/// Of a runner that answers in order, the answers to my searches are one per search,
/// each to the words of the search at its place: what a search found is listed under
/// that very search's kind and reason.
pub proof fn each_search_gets_its_own_answer<R: GhRunner>(
    runner: &R,
    login: Seq<char>,
    answers: Vec<Result<Vec<u8>, Error>>,
)
    requires
        answers_in_order(runner),
        answers_batch(runner, search_calls(searches_for(login)), answers),
    ensures
        answered(answers_view(answers@), login) == searches_for(login).len(),
        answers@.len() == searches_for(login).len(),
        forall|i: int|
            0 <= i < answers@.len() ==> answers_run(
                runner,
                searches_for(login)[i].args,
                #[trigger] answers@[i],
            ),
{
    let calls = search_calls(searches_for(login));
    batches_are_answered_in_order(runner, calls, answers);
    assert forall|i: int| 0 <= i < answers@.len() implies answers_run(
        runner,
        searches_for(login)[i].args,
        #[trigger] answers@[i],
    ) by {
        assert(calls[i] == searches_for(login)[i].args);
    }
}

/// The searches that have been answered.
pub open spec fn answered(answers: Seq<Result<Seq<u8>, ErrorView>>, login: Seq<char>) -> nat {
    lesser(answers.len(), searches_for(login).len())
}

/// Whether one of the searches before place `i` found a task with that key.
pub open spec fn found_before(
    answers: Seq<Result<Seq<u8>, ErrorView>>,
    searches: Seq<SearchView>,
    i: int,
    key: Seq<char>,
) -> bool {
    exists|k: int|
        0 <= k < i && #[trigger] found_by(answers, searches, k) is Ok && has_task(
            found_by(answers, searches, k)->Ok_0,
            key,
        )
}

/// Everything that a search found is in my list, itself or by a task with the same
/// key, and no key is in the list twice.
pub proof fn list_holds_everything_once(
    answers: Seq<Result<Seq<u8>, ErrorView>>,
    login: Seq<char>,
    i: int,
    q: int,
)
    requires
        task_list(answers, login) is Ok,
        0 <= i < answered(answers, login),
        found_by(answers, searches_for(login), i) is Ok,
        0 <= q < found_by(answers, searches_for(login), i)->Ok_0.len(),
    ensures
        has_task(
            task_list(answers, login)->Ok_0,
            key_of(found_by(answers, searches_for(login), i)->Ok_0[q]),
        ),
        forall|a: int, b: int|
            0 <= a < b < task_list(answers, login)->Ok_0.len() ==> key_of(
                #[trigger] task_list(answers, login)->Ok_0[a],
            ) != key_of(#[trigger] task_list(answers, login)->Ok_0[b]),
{
    let searches = searches_for(login);
    let n = answered(answers, login);
    let all = gathered(answers, searches, n)->Ok_0;
    let p = lemma_place_of_found(answers, searches, n, i, q);
    let m = marked(all, login);
    assert(key_of(m[p]) == key_of(all[p]));
    dedup_keeps_every_key(m, p);
    assert forall|a: int, b: int| 0 <= a < b < deduped(m).len() implies key_of(
        #[trigger] deduped(m)[a],
    ) != key_of(#[trigger] deduped(m)[b]) by {
        dedup_leaves_no_duplicates(m, a, b);
    }
}

/// Where an item turns up in several searches, the earliest of them gives the
/// reason and the kind under which it is listed.
pub proof fn earliest_search_gives_the_reason(
    answers: Seq<Result<Seq<u8>, ErrorView>>,
    login: Seq<char>,
    i: int,
    q: int,
    j: int,
)
    requires
        task_list(answers, login) is Ok,
        0 <= i < answered(answers, login),
        found_by(answers, searches_for(login), i) is Ok,
        0 <= q < found_by(answers, searches_for(login), i)->Ok_0.len(),
        !found_before(
            answers,
            searches_for(login),
            i,
            key_of(found_by(answers, searches_for(login), i)->Ok_0[q]),
        ),
        0 <= j < task_list(answers, login)->Ok_0.len(),
        key_of(task_list(answers, login)->Ok_0[j]) == key_of(
            found_by(answers, searches_for(login), i)->Ok_0[q],
        ),
    ensures
        task_list(answers, login)->Ok_0[j].reason == searches_for(login)[i].reason,
        task_list(answers, login)->Ok_0[j].kind == kind_of(searches_for(login)[i].kind),
{
    let searches = searches_for(login);
    let n = answered(answers, login);
    let all = gathered(answers, searches, n)->Ok_0;
    let m = marked(all, login);
    let key = key_of(found_by(answers, searches, i)->Ok_0[q]);
    let p = lemma_place_of_found(answers, searches, n, i, q);
    let places = dedup_keeps_first_occurrences(m);
    let f = places[j];
    assert(deduped(m)[j] == m[f]);
    assert(is_first(m, f));
    assert(key_of(m[f]) == key_of(all[f]));
    assert(key_of(m[p]) == key);
    // The listed one is no later than the one found.
    assert(f <= p) by {
        if p < f {
            assert(key_of(m[p]) != key_of(m[f]));
        }
    }
    let g = lemma_where_found(answers, searches, n, f);
    if g.0 < i {
        assert(found_by(answers, searches, g.0)->Ok_0[g.1] == all[f]);
        assert(has_task(found_by(answers, searches, g.0)->Ok_0, key));
        assert(found_before(answers, searches, i, key));
    } else if g.0 > i {
        lemma_place_of_found(answers, searches, n, g.0, g.1);
        lemma_gathered_grows(answers, searches, (i + 1) as nat, g.0 as nat);
    }
}

/// Where a gathered task was found, with its place.
proof fn lemma_where_found(
    answers: Seq<Result<Seq<u8>, ErrorView>>,
    searches: Seq<SearchView>,
    n: nat,
    p: int,
) -> (r: (int, int))
    requires
        gathered(answers, searches, n) is Ok,
        0 <= p < gathered(answers, searches, n)->Ok_0.len(),
    ensures
        0 <= r.0 < n,
        found_by(answers, searches, r.0) is Ok,
        0 <= r.1 < found_by(answers, searches, r.0)->Ok_0.len(),
        gathered(answers, searches, n)->Ok_0[p] == found_by(answers, searches, r.0)->Ok_0[r.1],
        gathered(answers, searches, r.0 as nat) is Ok,
        p == gathered(answers, searches, r.0 as nat)->Ok_0.len() + r.1,
    decreases n,
{
    let m = (n - 1) as nat;
    let front = gathered(answers, searches, m)->Ok_0;
    if p < front.len() {
        lemma_where_found(answers, searches, m, p)
    } else {
        (m as int, p - front.len())
    }
}

proof fn lemma_gathered_grows(
    answers: Seq<Result<Seq<u8>, ErrorView>>,
    searches: Seq<SearchView>,
    a: nat,
    b: nat,
)
    requires
        a <= b,
        gathered(answers, searches, b) is Ok,
    ensures
        gathered(answers, searches, a) is Ok,
        gathered(answers, searches, a)->Ok_0.len() <= gathered(answers, searches, b)->Ok_0.len(),
    decreases b - a,
{
    if a < b {
        lemma_gathered_grows(answers, searches, a, (b - 1) as nat);
    }
}

/// Every task in my list was found by one of the searches, is listed under that
/// search's kind and reason, and counts as mine exactly when the owner in its
/// project is me.
pub proof fn listed_tasks_are_found_tasks(
    answers: Seq<Result<Seq<u8>, ErrorView>>,
    login: Seq<char>,
    j: int,
) -> (r: (int, int))
    requires
        task_list(answers, login) is Ok,
        0 <= j < task_list(answers, login)->Ok_0.len(),
    ensures
        0 <= r.0 < answered(answers, login),
        found_by(answers, searches_for(login), r.0) is Ok,
        0 <= r.1 < found_by(answers, searches_for(login), r.0)->Ok_0.len(),
        ({
            let listed = task_list(answers, login)->Ok_0[j];
            let found = found_by(answers, searches_for(login), r.0)->Ok_0[r.1];
            &&& listed == (TaskView { mine: owned_by(found, login), ..found })
            &&& listed.mine == owned_by(listed, login)
            &&& listed.reason == searches_for(login)[r.0].reason
            &&& listed.kind == kind_of(searches_for(login)[r.0].kind)
        }),
{
    let searches = searches_for(login);
    let n = answered(answers, login);
    let all = gathered(answers, searches, n)->Ok_0;
    let m = marked(all, login);
    let places = dedup_keeps_first_occurrences(m);
    let f = places[j];
    assert(deduped(m)[j] == m[f]);
    lemma_where_found(answers, searches, n, f)
}

/// A pull request whose review is requested from me is listed for that reason,
/// also where broader searches find it too: all that takes precedence are the
/// searches for issues.
pub proof fn requested_reviews_keep_their_reason(
    answers: Seq<Result<Seq<u8>, ErrorView>>,
    login: Seq<char>,
    q: int,
    j: int,
)
    requires
        task_list(answers, login) is Ok,
        answers.len() >= 3,
        found_by(answers, searches_for(login), 2) is Ok,
        0 <= q < found_by(answers, searches_for(login), 2)->Ok_0.len(),
        !found_before(
            answers,
            searches_for(login),
            2,
            key_of(found_by(answers, searches_for(login), 2)->Ok_0[q]),
        ),
        0 <= j < task_list(answers, login)->Ok_0.len(),
        key_of(task_list(answers, login)->Ok_0[j]) == key_of(
            found_by(answers, searches_for(login), 2)->Ok_0[q],
        ),
    ensures
        task_list(answers, login)->Ok_0[j].reason == InboxReason::ReviewRequested,
{
    earliest_search_gives_the_reason(answers, login, 2, q, j);
}

// ----------------------------------------------------------------------------
// Which tasks are the same item
// ----------------------------------------------------------------------------

/// Whether a task goes by that id: as its display id, or as its link where it has no
/// display id.
pub open spec fn goes_by(t: TaskView, id: Seq<char>) -> bool {
    t.display == id || (t.display.len() == 0 && t.url == Some(id))
}

/// Two tasks with display ids are the same item exactly where those are equal, two
/// without them exactly where their links are (no link is like an empty one), and one
/// with and one without exactly where the one's id is the other's link.
pub proof fn items_are_told_by_display_id_or_link(a: TaskView, b: TaskView)
    ensures
        a.display.len() > 0 && b.display.len() > 0 ==> (key_of(a) == key_of(b) <==> a.display
            == b.display),
        a.display.len() == 0 && b.display.len() == 0 && a.url is Some && b.url is Some ==> (key_of(
            a,
        ) == key_of(b) <==> a.url == b.url),
        a.display.len() == 0 && b.display.len() == 0 && a.url is None ==> (key_of(a) == key_of(b)
            <==> b.url is None || b.url == Some(Seq::<char>::empty())),
        a.display.len() > 0 && b.display.len() == 0 ==> (key_of(a) == key_of(b) <==> b.url == Some(
            a.display,
        )),
{
    if a.display.len() == 0 && b.display.len() == 0 && a.url is None && b.url is Some {
        if key_of(a) == key_of(b) {
            assert(b.url->0 =~= Seq::<char>::empty());
        }
    }
    if a.display.len() > 0 && b.display.len() == 0 && b.url is None {
        assert(key_of(a).len() > 0 && key_of(b).len() == 0);
    }
}

/// De-duplication keeps the first task that goes by a display id, as it is, and no two
/// tasks with one display id.
pub proof fn dedup_goes_by_display_id(tasks: Seq<TaskView>, i: int)
    requires
        0 <= i < tasks.len(),
        tasks[i].display.len() > 0,
        forall|k: int| 0 <= k < i ==> !goes_by(#[trigger] tasks[k], tasks[i].display),
    ensures
        exists|j: int| 0 <= j < deduped(tasks).len() && #[trigger] deduped(tasks)[j] == tasks[i],
        forall|a: int, b: int|
            0 <= a < b < deduped(tasks).len() && deduped(tasks)[a].display.len() > 0 ==> (
            #[trigger] deduped(tasks)[a]).display != (#[trigger] deduped(tasks)[b]).display,
{
    assert forall|k: int| 0 <= k < i implies key_of(#[trigger] tasks[k]) != key_of(tasks[i]) by {
        items_are_told_by_display_id_or_link(tasks[i], tasks[k]);
    }
    lemma_first_is_kept(tasks, i);
    assert forall|a: int, b: int|
        0 <= a < b < deduped(tasks).len() && deduped(tasks)[a].display.len() > 0 implies (
    #[trigger] deduped(tasks)[a]).display != (#[trigger] deduped(tasks)[b]).display by {
        dedup_leaves_no_duplicates(tasks, a, b);
        items_are_told_by_display_id_or_link(deduped(tasks)[a], deduped(tasks)[b]);
    }
}

proof fn lemma_first_is_kept(tasks: Seq<TaskView>, i: int)
    requires
        0 <= i < tasks.len(),
        is_first(tasks, i),
    ensures
        exists|j: int| 0 <= j < deduped(tasks).len() && #[trigger] deduped(tasks)[j] == tasks[i],
{
    dedup_keeps_every_key(tasks, i);
    let places = dedup_keeps_first_occurrences(tasks);
    let j = choose|j: int|
        0 <= j < deduped(tasks).len() && key_of(#[trigger] deduped(tasks)[j]) == key_of(tasks[i]);
    let f = places[j];
    assert(deduped(tasks)[j] == tasks[f]);
    if f < i {
        assert(key_of(tasks[f]) != key_of(tasks[i]));
    }
    if i < f {
        assert(key_of(tasks[i]) != key_of(tasks[f]));
    }
}

/// Whether an earlier place, in the order of the searches and of their results, holds a
/// task that goes by that id.
pub open spec fn shown_before(
    answers: Seq<Result<Seq<u8>, ErrorView>>,
    searches: Seq<SearchView>,
    i: int,
    q: int,
    id: Seq<char>,
) -> bool {
    exists|k: int, p: int|
        0 <= k && (k < i || (k == i && p < q)) && #[trigger] found_by(answers, searches, k) is Ok
            && 0 <= p < found_by(answers, searches, k)->Ok_0.len() && goes_by(
            #[trigger] found_by(answers, searches, k)->Ok_0[p],
            id,
        )
}

/// Every found task that nothing found before it goes by the id of is in my list, with
/// all that it carries; and no display id is in the list twice. So tasks with different
/// display ids are never taken for one.
pub proof fn every_display_id_is_listed_once(
    answers: Seq<Result<Seq<u8>, ErrorView>>,
    login: Seq<char>,
    i: int,
    q: int,
)
    requires
        task_list(answers, login) is Ok,
        0 <= i < answers.len(),
        i < 5,
        found_by(answers, searches_for(login), i) is Ok,
        0 <= q < found_by(answers, searches_for(login), i)->Ok_0.len(),
        found_by(answers, searches_for(login), i)->Ok_0[q].display.len() > 0,
        !shown_before(
            answers,
            searches_for(login),
            i,
            q,
            found_by(answers, searches_for(login), i)->Ok_0[q].display,
        ),
    ensures
        ({
            let list = task_list(answers, login)->Ok_0;
            let found = found_by(answers, searches_for(login), i)->Ok_0[q];
            &&& exists|j: int|
                0 <= j < list.len() && #[trigger] list[j] == (TaskView {
                    mine: list[j].mine,
                    ..found
                })
            &&& forall|a: int, b: int|
                0 <= a < b < list.len() && list[a].display.len() > 0 ==> (
                #[trigger] list[a]).display != (#[trigger] list[b]).display
        }),
{
    let searches = searches_for(login);
    let n = answered(answers, login);
    let all = gathered(answers, searches, n)->Ok_0;
    let m = marked(all, login);
    let found = found_by(answers, searches, i)->Ok_0[q];
    let p = lemma_place_of_found(answers, searches, n, i, q);
    assert(m[p].display == found.display);
    assert forall|k: int| 0 <= k < p implies !goes_by(#[trigger] m[k], m[p].display) by {
        let g = lemma_where_found(answers, searches, n, k);
        if g.0 > i {
            lemma_gathered_grows(answers, searches, (i + 1) as nat, g.0 as nat);
        }
        let earlier = found_by(answers, searches, g.0)->Ok_0[g.1];
        assert(m[k].display == earlier.display && m[k].url == earlier.url);
        if goes_by(m[k], found.display) {
            assert(goes_by(earlier, found.display));
            assert(shown_before(answers, searches, i, q, found.display));
        }
    }
    dedup_goes_by_display_id(m, p);
    let j = choose|j: int| 0 <= j < deduped(m).len() && #[trigger] deduped(m)[j] == m[p];
    assert(deduped(m)[j] == (TaskView { mine: deduped(m)[j].mine, ..found }));
}

/// Results are gathered search by search, and within a search as they were printed.
pub proof fn found_tasks_stand_in_search_order(
    answers: Seq<Result<Seq<u8>, ErrorView>>,
    searches: Seq<SearchView>,
    n: nat,
    i: int,
    q: int,
    j: int,
    p: int,
)
    requires
        gathered(answers, searches, n) is Ok,
        0 <= i < n,
        0 <= j < n,
        i < j || (i == j && q < p),
        found_by(answers, searches, i) is Ok,
        found_by(answers, searches, j) is Ok,
        0 <= q < found_by(answers, searches, i)->Ok_0.len(),
        0 <= p < found_by(answers, searches, j)->Ok_0.len(),
    ensures
        exists|a: int, b: int|
            0 <= a < b < gathered(answers, searches, n)->Ok_0.len() && #[trigger] gathered(
                answers,
                searches,
                n,
            )->Ok_0[a] == found_by(answers, searches, i)->Ok_0[q] && #[trigger] gathered(
                answers,
                searches,
                n,
            )->Ok_0[b] == found_by(answers, searches, j)->Ok_0[p],
{
    let a = lemma_place_of_found(answers, searches, n, i, q);
    let b = lemma_place_of_found(answers, searches, n, j, p);
    if i < j {
        lemma_gathered_grows(answers, searches, (i + 1) as nat, j as nat);
    }
    let all = gathered(answers, searches, n)->Ok_0;
    assert(all[a] == found_by(answers, searches, i)->Ok_0[q]);
    assert(all[b] == found_by(answers, searches, j)->Ok_0[p]);
}

/// There is a list exactly where each of the searches that were answered, all five where
/// all were, has output that holds an array of values.
pub proof fn every_search_has_to_succeed(
    answers: Seq<Result<Seq<u8>, ErrorView>>,
    login: Seq<char>,
)
    ensures
        task_list(answers, login) is Ok <==> forall|i: int|
            0 <= i < answers.len() && i < 5 ==> (#[trigger] answers[i] matches Ok(raw) && decoded(
                raw,
            ) is Ok),
        task_list(answers, login) matches Err(e) ==> exists|i: int|
            0 <= i < answers.len() && i < 5 && (#[trigger] answers[i] matches Err(x) ==> x == e)
                && (answers[i] matches Ok(raw) ==> decoded(raw) matches Err(reason) && e
                == ErrorView::Api("parse gh output: "@ + reason)) && forall|k: int|
                0 <= k < i ==> (#[trigger] answers[k] matches Ok(raw) && decoded(raw) is Ok),
{
    let searches = searches_for(login);
    let n = answered(answers, login);
    gathering_fails_with_the_first_error(answers, searches, n);
    assert forall|i: int| 0 <= i < n implies (#[trigger] found_by(answers, searches, i) is Ok <==> (
    answers[i] matches Ok(raw) && decoded(raw) is Ok)) by {}
    if task_list(answers, login) is Ok {
        assert forall|i: int| 0 <= i < answers.len() && i < 5 implies (
        #[trigger] answers[i] matches Ok(raw) && decoded(raw) is Ok) by {
            assert(found_by(answers, searches, i) is Ok);
        }
    }
    if let Err(e) = task_list(answers, login) {
        let i = choose|i: int|
            0 <= i < n && #[trigger] found_by(answers, searches, i) == Err::<
                Seq<TaskView>,
                ErrorView,
            >(e) && forall|k: int| 0 <= k < i ==> #[trigger] found_by(answers, searches, k) is Ok;
        let at = answers[i];
        assert forall|k: int| 0 <= k < i implies (#[trigger] answers[k] matches Ok(raw) && decoded(
            raw,
        ) is Ok) by {
            assert(found_by(answers, searches, k) is Ok);
        }
    }
}

/// What a search found is what its output holds, read under the search's kind and
/// reason.
pub proof fn what_is_found_is_what_is_printed(
    answers: Seq<Result<Seq<u8>, ErrorView>>,
    searches: Seq<SearchView>,
    i: int,
    raw: Seq<u8>,
    values: Seq<JsonView>,
)
    requires
        answers[i] == Ok::<Seq<u8>, ErrorView>(raw),
        decoded(raw) == Ok::<Seq<JsonView>, Seq<char>>(values),
    ensures
        found_by(answers, searches, i) matches Ok(tasks) && tasks.len() == values.len() && forall|
            q: int,
        |
            0 <= q < tasks.len() ==> #[trigger] tasks[q] == task_of(
                values[q],
                searches[i].kind,
                searches[i].reason,
            ),
{
}

// ----------------------------------------------------------------------------
// Whose task it is
// ----------------------------------------------------------------------------

/// A task is mine exactly where its project is mine: what stands before the slash is my
/// login. Nothing else about it changes.
pub proof fn my_tasks_are_those_of_my_repositories(
    tasks: Seq<TaskView>,
    i: int,
    login: Seq<char>,
    owner: Seq<char>,
    name: Seq<char>,
)
    requires
        0 <= i < tasks.len(),
        without_any(owner, '/'),
    ensures
        marked(tasks, login).len() == tasks.len(),
        marked(tasks, login)[i] == (TaskView { mine: marked(tasks, login)[i].mine, ..tasks[i] }),
        tasks[i].project == Some(owner + seq!['/'] + name) || tasks[i].project == Some(owner) ==> (
        marked(tasks, login)[i].mine <==> owner == login),
        tasks[i].project is None ==> !marked(tasks, login)[i].mine,
{
    the_first_segment_lies_before_the_first(owner, name, '/');
}

// ----------------------------------------------------------------------------
// What is searched for
// ----------------------------------------------------------------------------

/// Whether a search asks for the open items of a kind that one option selects.
pub open spec fn asks_for(
    search: SearchView,
    what: Seq<char>,
    option: Seq<char>,
    value: Seq<char>,
    fields: Seq<char>,
) -> bool {
    &&& search.args.len() == 8
    &&& search.args[0] == "search"@
    &&& search.args[1] == what
    &&& search.args[2] == option
    &&& search.args[3] == value
    &&& search.args[4] == "--state"@
    &&& search.args[5] == "open"@
    &&& search.args[6] == "--json"@
    &&& search.args[7] == fields
}

/// Five searches make up my list: what I am involved in and what is in my repositories,
/// issues and pull requests, and the reviews requested from me, before the pull requests
/// found more broadly. Each result is of the kind that was searched for.
pub proof fn five_searches_make_up_my_list(login: Seq<char>)
    ensures
        ({
            let s = searches_for(login);
            let issue = "number,title,state,repository,assignees,createdAt,updatedAt,url"@;
            let pr = "number,title,state,repository,assignees,createdAt,updatedAt,url,isDraft"@;
            &&& s.len() == 5
            &&& asks_for(s[0], "issues"@, "--involves"@, "@me"@, issue)
            &&& asks_for(s[1], "issues"@, "--owner"@, login, issue)
            &&& asks_for(s[2], "prs"@, "--review-requested"@, "@me"@, pr)
            &&& asks_for(s[3], "prs"@, "--involves"@, "@me"@, pr)
            &&& asks_for(s[4], "prs"@, "--owner"@, login, pr)
            &&& s[0].reason == InboxReason::Involved && s[1].reason == InboxReason::Own
            &&& s[2].reason == InboxReason::ReviewRequested
            &&& s[3].reason == InboxReason::Involved && s[4].reason == InboxReason::Own
            &&& forall|i: int|
                0 <= i < 5 ==> ((#[trigger] s[i]).kind == TaskKind::Issue <==> s[i].args[1]
                    == "issues"@)
            &&& search_calls(s).len() == 5
            &&& forall|i: int| 0 <= i < 5 ==> #[trigger] search_calls(s)[i] == s[i].args
        }),
{
    let s = searches_for(login);
    reveal_strlit("issues");
    reveal_strlit("prs");
    assert("issues"@.len() != "prs"@.len());
    assert(s[0].args[1] == "issues"@);
    assert(s[1].args[1] == "issues"@);
    assert(s[2].args[1] == "prs"@);
    assert(s[3].args[1] == "prs"@);
    assert(s[4].args[1] == "prs"@);
}

/// Within one repository, results with different numbers have different display
/// ids, so none is taken for the other.
pub proof fn display_ids_tell_numbers_apart(repo: Seq<char>, a: i64, b: i64)
    requires
        display_of(repo, Some(a)) == display_of(repo, Some(b)),
    ensures
        a == b,
{
    let x = decimal(a as int);
    let y = decimal(b as int);
    if repo.len() > 0 {
        let head = repo + "#"@;
        assert((head + x).skip(head.len() as int) =~= x);
        assert((head + y).skip(head.len() as int) =~= y);
    }
    lemma_decimal_injective(a as int, b as int);
}

proof fn lemma_digit(n: nat)
    ensures
        decimal_nat(n).len() > 0,
        is_digit(decimal_nat(n)[0]),
    decreases n,
{
    if n >= 10 {
        lemma_digit(n / 10);
    }
}

proof fn lemma_decimal_nat_injective(a: nat, b: nat)
    requires
        decimal_nat(a) == decimal_nat(b),
    ensures
        a == b,
    decreases a,
{
    lemma_digit(a / 10);
    lemma_digit(b / 10);
    let x = decimal_nat(a);
    let y = decimal_nat(b);
    assert(x.last() == digit_char((a % 10) as int));
    assert(y.last() == digit_char((b % 10) as int));
    assert(a % 10 == b % 10);
    if a >= 10 && b >= 10 {
        assert(x.drop_last() =~= decimal_nat(a / 10));
        assert(y.drop_last() =~= decimal_nat(b / 10));
        lemma_decimal_nat_injective(a / 10, b / 10);
    }
}

proof fn lemma_decimal_injective(a: int, b: int)
    requires
        decimal(a) == decimal(b),
    ensures
        a == b,
{
    if a < 0 {
        lemma_digit((-a) as nat);
        assert(decimal(a)[0] == '-');
        assert(decimal(a).skip(1) =~= decimal_nat((-a) as nat));
    } else {
        lemma_digit(a as nat);
    }
    if b < 0 {
        lemma_digit((-b) as nat);
        assert(decimal(b)[0] == '-');
        assert(decimal(b).skip(1) =~= decimal_nat((-b) as nat));
    } else {
        lemma_digit(b as nat);
    }
    if a < 0 && b < 0 {
        lemma_decimal_nat_injective((-a) as nat, (-b) as nat);
    } else if a >= 0 && b >= 0 {
        lemma_decimal_nat_injective(a as nat, b as nat);
    }
}

// ----------------------------------------------------------------------------
// Text
// ----------------------------------------------------------------------------

/// A line that was read has no white space at its ends, so a login or a token
/// carries none.
pub proof fn lines_have_no_white_ends(raw: Seq<u8>)
    ensures
        line_of(raw).len() > 0 ==> !is_white(line_of(raw)[0]) && !is_white(line_of(raw).last()),
{
    lemma_trimmed(lossy_text(raw));
}

proof fn lemma_trimmed(s: Seq<char>)
    ensures
        trimmed(s).len() > 0 ==> !is_white(trimmed(s)[0]) && !is_white(trimmed(s).last()),
{
    lemma_trim_start(s);
    lemma_trim_end(trim_start(s));
}

proof fn lemma_trim_start(s: Seq<char>)
    ensures
        trim_start(s).len() > 0 ==> !is_white(trim_start(s)[0]),
    decreases s.len(),
{
    if s.len() > 0 && is_white(s[0]) {
        lemma_trim_start(s.drop_first());
    }
}

proof fn lemma_trim_end(s: Seq<char>)
    ensures
        trim_end(s).len() > 0 ==> !is_white(trim_end(s).last()) && trim_end(s)[0] == s[0],
    decreases s.len(),
{
    if s.len() > 0 && is_white(s.last()) {
        lemma_trim_end(s.drop_last());
    }
}

/// How a CI run ended is read from the title whatever the case of its letters.
pub proof fn outcome_ignores_case(a: Seq<char>, b: Seq<char>)
    requires
        lower(a) == lower(b),
    ensures
        outcome_of(a) == outcome_of(b),
{
}

/// A title that speaks of a failure is a failure, whatever else it says.
pub proof fn failure_comes_first(title: Seq<char>)
    requires
        has(lower(title), "fail"@),
    ensures
        outcome_of(title) == CiOutcome::Failure,
{
}

}
