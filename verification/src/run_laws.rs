//! What holds of CI links and of the run lists, logins and tokens kept between
//! polls.
use crate::backend::{link_step, login_missing, login_step, runs_step};
use crate::clock::{in_range, instant_of, no_later, seconds_from, Instant};
use crate::entities::{NotifKindView, NotificationView};
use crate::error::{answer_view, answers_view, Error, ErrorView};
use crate::json::JsonView;
use crate::map::{ascending, map_of, order_irreflexive};
use crate::notifications::{link_of, unread_of, web_address};
use crate::runner::{
    answers_batch, answers_in_order, answers_key, answers_run, host_name, token_missing, token_step, GhRunner,
};
use crate::runs::{branch_of, is_run_of, nearest, runs_words, workflow_of};
use crate::snapshots::{
    answered_runs, covers, is_ci, kept, linked, linked_one, newest_of, runs_calls, runs_taken,
    served, stale, supersedes, with_answers, with_kept, CachedRunsView, RUNS_CACHE_TTL_SECS,
};
use crate::task_laws::batches_are_answered_in_order;
use crate::tasks::{lesser, or_empty};
use crate::text::{
    find_back, find_from, is_white, lemma_find_from, occurs_at, precedes, trim_start, trimmed,
};
use vstd::prelude::*;

verus! {

// ----------------------------------------------------------------------------
// Titles
// ----------------------------------------------------------------------------

/// The title of a CI notification, as GitHub phrases it; `status` holds the space in
/// front of it.
pub open spec fn phrased(
    workflow: Seq<char>,
    status: Seq<char>,
    branch: Seq<char>,
) -> Seq<char> {
    workflow + " workflow run"@ + status + " for "@ + branch + " branch"@
}

/// A title phrased "<workflow> workflow run <status> for <branch> branch" names that
/// branch, also where the workflow or the status holds a "for" of its own.
pub proof fn a_title_names_its_branch(
    workflow: Seq<char>,
    status: Seq<char>,
    branch: Seq<char>,
)
    requires
        branch.len() > 0,
        forall|i: int| 0 <= i < branch.len() ==> !is_white(#[trigger] branch[i]),
    ensures
        branch_of(phrased(workflow, status, branch)) == Some(branch),
{
    reveal_strlit(" workflow run");
    reveal_strlit(" for ");
    reveal_strlit(" branch");
    let head = workflow + " workflow run"@ + status;
    let title = phrased(workflow, status, branch);
    let p = workflow.len() as int + 1;
    assert(title[p] == 'w');
    assert(title.last() == 'h');
    let k = lemma_trim_start_skips(title, p);
    let all = title.skip(k);
    assert(all.last() == 'h');
    assert(trimmed(title) == all);
    assert(all.subrange(all.len() - 7, all.len() as int) =~= " branch"@);
    let body = all.take(all.len() - 7);
    let place = head.len() - k;
    assert(body =~= head.skip(k) + " for "@ + branch);
    assert(body.subrange(place, place + 5) =~= " for "@);
    assert forall|j: int| place < j <= body.len() - 5 implies !#[trigger] occurs_at(
        body,
        " for "@,
        j,
    ) by {
        if occurs_at(body, " for "@, j) {
            assert(body[j + 4] == body.subrange(j, j + 5)[4]);
            assert(body[j + 4] == branch[j + 4 - place - 5]);
        }
    }
    lemma_find_back(body, " for "@, body.len() - 5, place);
    assert(body.skip(place + 5) =~= branch);
    assert(trimmed(branch) == branch);
}

/// Where the workflow's name has no white ends and the words "workflow run" do not
/// occur before their place, such a title names the workflow.
pub proof fn a_title_names_its_workflow(
    workflow: Seq<char>,
    status: Seq<char>,
    branch: Seq<char>,
)
    requires
        workflow.len() > 0,
        !is_white(workflow[0]),
        !is_white(workflow.last()),
        forall|i: int|
            0 <= i < workflow.len() ==> !#[trigger] occurs_at(
                phrased(workflow, status, branch),
                " workflow run"@,
                i,
            ),
    ensures
        workflow_of(phrased(workflow, status, branch)) == Some(workflow),
{
    let title = phrased(workflow, status, branch);
    let mark = " workflow run"@;
    let n = workflow.len() as int;
    assert(title.subrange(n, n + mark.len()) =~= mark);
    assert(occurs_at(title, mark, n));
    lemma_find_from(title, mark, 0);
    assert(find_from(title, mark, 0) == Some(n));
    assert(title.take(n) =~= workflow);
    assert(trimmed(workflow) == workflow);
}

/// Leading white space ends at a character that is not white.
proof fn lemma_trim_start_skips(s: Seq<char>, p: int) -> (k: int)
    requires
        0 <= p < s.len(),
        !is_white(s[p]),
    ensures
        0 <= k <= p,
        trim_start(s) == s.skip(k),
    decreases s.len(),
{
    if is_white(s[0]) {
        let rest = s.drop_first();
        assert(rest[p - 1] == s[p]);
        let k = lemma_trim_start_skips(rest, p - 1);
        assert(rest.skip(k) =~= s.skip(k + 1));
        k + 1
    } else {
        assert(s.skip(0) =~= s);
        0
    }
}

/// The last place of a pattern, where it occurs there and at no later place.
proof fn lemma_find_back(s: Seq<char>, pattern: Seq<char>, from: int, i: int)
    requires
        0 <= i <= from,
        occurs_at(s, pattern, i),
        forall|j: int| i < j <= from ==> !#[trigger] occurs_at(s, pattern, j),
    ensures
        find_back(s, pattern, from) == Some(i),
    decreases from,
{
    if i < from {
        assert(!occurs_at(s, pattern, from));
        lemma_find_back(s, pattern, from - 1, i);
    }
}

// ----------------------------------------------------------------------------
// The matched run
// ----------------------------------------------------------------------------

/// The chosen run is of the workflow and branch asked for, no other such run is
/// nearer, and none that comes before it is as near. None is chosen only when
/// there is no such run.
pub proof fn chosen_run_is_the_first_nearest(
    runs: Seq<JsonView>,
    workflow: Seq<char>,
    branch: Option<Seq<char>>,
    distances: Seq<int>,
    n: int,
)
    requires
        0 <= n <= runs.len(),
    ensures
        match nearest(runs, workflow, branch, distances, n) {
            Some(i) => 0 <= i < n && is_run_of(runs[i], workflow, branch) && forall|j: int|
                0 <= j < n && is_run_of(#[trigger] runs[j], workflow, branch) ==> distances[i]
                    <= distances[j] && (j < i ==> distances[i] < distances[j]),
            None => forall|j: int|
                0 <= j < n ==> !is_run_of(#[trigger] runs[j], workflow, branch),
        },
    decreases n,
{
    if n > 0 {
        chosen_run_is_the_first_nearest(runs, workflow, branch, distances, n - 1);
    }
}

// ----------------------------------------------------------------------------
// Links
// ----------------------------------------------------------------------------

/// Resolving links touches nothing but the links of CI notifications, and of
/// those only where the repository's runs are known.
pub proof fn linking_changes_only_ci_links(
    items: Seq<NotificationView>,
    runs: Map<Seq<char>, Seq<JsonView>>,
    i: int,
)
    requires
        0 <= i < items.len(),
    ensures
        linked(items, runs).len() == items.len(),
        linked(items, runs)[i] == (NotificationView {
            url: linked(items, runs)[i].url,
            ..items[i]
        }),
        !is_ci(items[i]) ==> linked(items, runs)[i] == items[i],
        items[i].project matches Some(repo) && !runs.dom().contains(repo) ==> linked(
            items,
            runs,
        )[i] == items[i],
{
}

/// A link that is there is never taken away.
pub proof fn linking_keeps_links(
    items: Seq<NotificationView>,
    runs: Map<Seq<char>, Seq<JsonView>>,
    i: int,
)
    requires
        0 <= i < items.len(),
        items[i].url is Some,
    ensures
        linked(items, runs)[i].url is Some,
{
}

/// Resolving links twice is the same as once.
pub proof fn linking_is_idempotent(
    items: Seq<NotificationView>,
    runs: Map<Seq<char>, Seq<JsonView>>,
)
    ensures
        linked(linked(items, runs), runs) == linked(items, runs),
{
    assert(linked(linked(items, runs), runs) =~= linked(items, runs));
}

/// As many notifications are unread with their links resolved as without, so
/// counting can do without resolving.
pub proof fn linking_keeps_the_unread_count(
    items: Seq<NotificationView>,
    runs: Map<Seq<char>, Seq<JsonView>>,
)
    ensures
        unread_of(linked(items, runs)) == unread_of(items),
    decreases items.len(),
{
    let unread = |n: NotificationView| !n.read;
    let after = linked(items, runs);
    reveal_with_fuel(Seq::filter, 2);
    if items.len() > 0 {
        assert(after.drop_last() =~= linked(items.drop_last(), runs));
        assert(after.last() == linked_one(items.last(), runs));
        linking_keeps_the_unread_count(items.drop_last(), runs);
    } else {
        assert(after =~= items);
    }
}

/// A notification's own link lies below its repository's web address, so it works
/// on an enterprise host as on `github.com`.
pub proof fn links_lie_below_the_repository(v: JsonView)
    requires
        link_of(v) is Some,
    ensures
        v.field("repository"@) is Some,
        web_address(v.field("repository"@)->0) is Some,
        (web_address(v.field("repository"@)->0)->0).is_prefix_of(link_of(v)->0),
{
    let base = web_address(v.field("repository"@)->0)->0;
    let link = link_of(v)->0;
    assert(link.take(base.len() as int) =~= base);
    assert(base.is_prefix_of(link));
}

// ----------------------------------------------------------------------------
// What has to be answered for
// ----------------------------------------------------------------------------

/// Whether an item is a CI notification of that repository.
pub open spec fn is_ci_of(item: NotificationView, repo: Seq<char>) -> bool {
    is_ci(item) && item.project == Some(repo)
}

/// The repositories to answer for are those with a CI notification, each with the
/// update time of one of them that none of the others supersedes.
pub proof fn newest_is_the_latest_update(items: Seq<NotificationView>, repo: Seq<char>)
    ensures
        newest_of(items).dom().contains(repo) <==> exists|i: int|
            0 <= i < items.len() && is_ci_of(#[trigger] items[i], repo),
        newest_of(items).dom().contains(repo) ==> {
            &&& exists|i: int|
                0 <= i < items.len() && is_ci_of(#[trigger] items[i], repo) && or_empty(
                    items[i].updated_at,
                ) == newest_of(items)[repo]
            &&& forall|i: int|
                0 <= i < items.len() && is_ci_of(#[trigger] items[i], repo) ==> !supersedes(
                    or_empty(items[i].updated_at),
                    newest_of(items)[repo],
                )
        },
    decreases items.len(),
{
    if items.len() > 0 {
        let front = items.drop_last();
        let last = items.last();
        let end = items.len() - 1;
        let was = newest_of(front);
        newest_is_the_latest_update(front, repo);
        assert(items[end] == last);
        assert(forall|i: int| 0 <= i < end ==> #[trigger] items[i] == front[i]);
        if was.dom().contains(repo) {
            let w = choose|i: int|
                0 <= i < front.len() && is_ci_of(#[trigger] front[i], repo) && or_empty(
                    front[i].updated_at,
                ) == was[repo];
            assert(is_ci_of(items[w], repo));
        }
        assert forall|i: int|
            0 <= i < items.len() && is_ci_of(#[trigger] items[i], repo) implies newest_of(
            items,
        ).dom().contains(repo) && !supersedes(
            or_empty(items[i].updated_at),
            newest_of(items)[repo],
        ) by {
            if i < end {
                assert(is_ci_of(front[i], repo));
            }
        }
        if !was.dom().contains(repo) && is_ci_of(last, repo) {
            assert(is_ci_of(items[end], repo));
        }
    }
}

/// A run list that answers for a repository's latest update answers for every CI
/// notification of the repository that has an update time.
pub proof fn the_latest_update_stands_for_all(
    items: Seq<NotificationView>,
    repo: Seq<char>,
    fetched: (int, int),
    now: (int, int),
    i: int,
)
    requires
        newest_of(items).dom().contains(repo),
        covers(fetched, Some(newest_of(items)[repo]), now),
        0 <= i < items.len(),
        is_ci_of(items[i], repo),
        or_empty(items[i].updated_at).len() > 0,
    ensures
        covers(fetched, Some(or_empty(items[i].updated_at)), now),
{
    newest_is_the_latest_update(items, repo);
}

// ----------------------------------------------------------------------------
// Freshness
// ----------------------------------------------------------------------------

/// Past its lifetime a run list is not reused, however old the notification.
pub proof fn nothing_is_reused_past_its_lifetime(
    fetched: (int, int),
    updated: Option<Seq<char>>,
    now: (int, int),
)
    requires
        seconds_from(now, fetched) >= RUNS_CACHE_TTL_SECS,
    ensures
        !covers(fetched, updated, now),
{
}

/// A run list never answers for a notification updated after it was read, nor for
/// one whose time is not known.
pub proof fn nothing_is_reused_for_later_updates(
    fetched: (int, int),
    updated: Option<Seq<char>>,
    now: (int, int),
)
    requires
        match updated {
            Some(s) => match instant_of(s) {
                Some(t) => !no_later(t, fetched),
                None => true,
            },
            None => true,
        },
    ensures
        !covers(fetched, updated, now),
{
}

/// A run list that answers for a notification answers for every earlier one.
pub proof fn earlier_updates_are_covered_too(
    fetched: (int, int),
    updated: Seq<char>,
    earlier: Seq<char>,
    now: (int, int),
)
    requires
        covers(fetched, Some(updated), now),
        instant_of(earlier) matches Some(t) && no_later(t, instant_of(updated)->0),
    ensures
        covers(fetched, Some(earlier), now),
{
}

/// As time goes on a run list does not get younger. Only where a leap second is
/// involved can its age, in whole seconds, fall back, and then by two at most.
pub proof fn age_only_grows(fetched: (int, int), now: (int, int), later: (int, int))
    requires
        in_range(fetched.0, fetched.1),
        in_range(now.0, now.1),
        in_range(later.0, later.1),
        no_later(now, later),
    ensures
        seconds_from(now, fetched) <= seconds_from(later, fetched) + 2,
        fetched.1 < 1_000_000_000 && now.1 < 1_000_000_000 && later.1 < 1_000_000_000
            ==> seconds_from(now, fetched) <= seconds_from(later, fetched),
{
}

// ----------------------------------------------------------------------------
// The cache between polls
// ----------------------------------------------------------------------------

pub open spec fn no_repeats(repos: Seq<Seq<char>>) -> bool {
    forall|i: int, j: int|
        0 <= i < j < repos.len() ==> #[trigger] repos[i] != #[trigger] repos[j]
}

/// Each repository is either served from the cache or asked for, never both.
pub proof fn repositories_are_served_or_asked_for(
    newest: Seq<(Seq<char>, Seq<char>)>,
    cache: Map<(Seq<char>, Seq<char>), CachedRunsView>,
    account: Option<Seq<char>>,
    now: (int, int),
    i: int,
)
    requires
        ascending(newest),
        0 <= i < newest.len(),
    ensures
        match kept(cache, account, newest[i].0, newest[i].1, now) {
            Some(runs) => served(newest, cache, account, now).dom().contains(newest[i].0) && served(
                newest,
                cache,
                account,
                now,
            )[newest[i].0] == runs && !stale(newest, cache, account, now).contains(newest[i].0),
            None => !served(newest, cache, account, now).dom().contains(newest[i].0) && stale(
                newest,
                cache,
                account,
                now,
            ).contains(newest[i].0),
        },
    decreases newest.len(),
{
    let front = newest.drop_last();
    let last = newest.last();
    let end = newest.len() - 1;
    let (repo, updated) = last;
    assert(newest[end] == last);
    assert(forall|k: int| 0 <= k < end ==> #[trigger] front[k] == newest[k]);
    let old_stale = stale(front, cache, account, now);
    let new_stale = stale(newest, cache, account, now);
    if i < end {
        repositories_are_served_or_asked_for(front, cache, account, now, i);
        order_irreflexive(repo);
        assert(newest[i].0 != repo) by {
            assert(precedes(newest[i].0, newest[end].0));
        }
        lemma_contains_push(old_stale, repo, newest[i].0);
    } else {
        lemma_only_listed(front, cache, account, now, repo);
        lemma_contains_push(old_stale, repo, repo);
    }
}

proof fn lemma_contains_push(s: Seq<Seq<char>>, x: Seq<char>, y: Seq<char>)
    ensures
        s.push(x).contains(y) <==> s.contains(y) || x == y,
{
    let t = s.push(x);
    assert(t[s.len() as int] == x);
    assert(forall|k: int| 0 <= k < s.len() ==> #[trigger] t[k] == s[k]);
    if s.contains(y) {
        let k = choose|k: int| 0 <= k < s.len() && s[k] == y;
        assert(t[k] == y);
    }
}

/// A repository that comes behind all those listed is among neither.
proof fn lemma_only_listed(
    newest: Seq<(Seq<char>, Seq<char>)>,
    cache: Map<(Seq<char>, Seq<char>), CachedRunsView>,
    account: Option<Seq<char>>,
    now: (int, int),
    repo: Seq<char>,
)
    requires
        forall|k: int| 0 <= k < newest.len() ==> precedes((#[trigger] newest[k]).0, repo),
    ensures
        !served(newest, cache, account, now).dom().contains(repo),
        !stale(newest, cache, account, now).contains(repo),
    decreases newest.len(),
{
    if newest.len() > 0 {
        let front = newest.drop_last();
        let end = newest.len() - 1;
        assert(forall|k: int| 0 <= k < end ==> #[trigger] front[k] == newest[k]);
        lemma_only_listed(front, cache, account, now, repo);
        order_irreflexive(repo);
        assert(precedes(newest[end].0, repo));
        lemma_contains_push(stale(front, cache, account, now), newest[end].0, repo);
    }
}

/// Without an account nothing is taken from the cache and nothing is kept in it.
pub proof fn without_an_account_nothing_is_kept(
    newest: Seq<(Seq<char>, Seq<char>)>,
    cache: Map<(Seq<char>, Seq<char>), CachedRunsView>,
    now: (int, int),
    repos: Seq<Seq<char>>,
    answers: Seq<Result<Seq<u8>, ErrorView>>,
    n: nat,
)
    ensures
        served(newest, cache, None, now) == Map::<Seq<char>, Seq<JsonView>>::empty(),
        stale(newest, cache, None, now) == newest.map_values(|e: (Seq<char>, Seq<char>)| e.0),
        with_kept(cache, None, now, repos, answers, n) == cache,
    decreases newest.len() + n,
{
    if newest.len() > 0 {
        without_an_account_nothing_is_kept(newest.drop_last(), cache, now, repos, answers, n);
        assert(newest.map_values(|e: (Seq<char>, Seq<char>)| e.0) =~= newest.drop_last().map_values(
            |e: (Seq<char>, Seq<char>)| e.0,
        ).push(newest.last().0));
    } else {
        assert(newest.map_values(|e: (Seq<char>, Seq<char>)| e.0) =~= Seq::<Seq<char>>::empty());
        if n > 0 {
            without_an_account_nothing_is_kept(
                newest,
                cache,
                now,
                repos,
                answers,
                (n - 1) as nat,
            );
        }
    }
}

/// Of a runner that answers in order, each repository's run list is read from the
/// answer to the call that asks for that repository.
pub proof fn each_repository_gets_its_own_answer<R: GhRunner>(
    runner: &R,
    repos: Seq<Seq<char>>,
    answers: Vec<Result<Vec<u8>, Error>>,
)
    requires
        answers_in_order(runner),
        answers_batch(runner, runs_calls(repos), answers),
    ensures
        answers@.len() == repos.len(),
        forall|i: int|
            0 <= i < answers@.len() ==> answers_run(
                runner,
                runs_words(repos[i]),
                #[trigger] answers@[i],
            ),
{
    batches_are_answered_in_order(runner, runs_calls(repos), answers);
    assert forall|i: int| 0 <= i < answers@.len() implies answers_run(
        runner,
        runs_words(repos[i]),
        #[trigger] answers@[i],
    ) by {
        assert(runs_calls(repos)[i] == runs_words(repos[i]));
    }
}

/// A run list that was read is handed on and kept as it is, with the time at which
/// it was read; a repository that was not read keeps what it had.
pub proof fn read_runs_are_handed_on_and_kept(
    known: Map<Seq<char>, Seq<JsonView>>,
    cache: Map<(Seq<char>, Seq<char>), CachedRunsView>,
    account: Seq<char>,
    now: (int, int),
    repos: Seq<Seq<char>>,
    answers: Seq<Result<Seq<u8>, ErrorView>>,
    n: nat,
    i: int,
)
    requires
        no_repeats(repos),
        n <= repos.len(),
        n <= answers.len(),
        0 <= i < n,
    ensures
        match answered_runs(answers[i]) {
            Some(runs) => {
                let out = with_answers(known, repos, answers, n);
                let after = with_kept(cache, Some(account), now, repos, answers, n);
                &&& out.dom().contains(repos[i]) && out[repos[i]] == runs
                &&& after.dom().contains((account, repos[i]))
                &&& after[(account, repos[i])] == (CachedRunsView { fetched_at: now, runs })
            },
            None => {
                let out = with_answers(known, repos, answers, n);
                let after = with_kept(cache, Some(account), now, repos, answers, n);
                &&& out.dom().contains(repos[i]) == known.dom().contains(repos[i])
                &&& out[repos[i]] == known[repos[i]]
                &&& after.dom().contains((account, repos[i])) == cache.dom().contains(
                    (account, repos[i]),
                )
                &&& after[(account, repos[i])] == cache[(account, repos[i])]
            },
        },
    decreases n,
{
    let m = (n - 1) as nat;
    if i < m {
        read_runs_are_handed_on_and_kept(known, cache, account, now, repos, answers, m, i);
        assert(repos[i] != repos[m as int]);
    } else {
        lemma_others_stay(known, cache, account, now, repos, answers, m, repos[i]);
    }
}

/// What is not among the first `n` repositories stays as it was.
proof fn lemma_others_stay(
    known: Map<Seq<char>, Seq<JsonView>>,
    cache: Map<(Seq<char>, Seq<char>), CachedRunsView>,
    account: Seq<char>,
    now: (int, int),
    repos: Seq<Seq<char>>,
    answers: Seq<Result<Seq<u8>, ErrorView>>,
    n: nat,
    repo: Seq<char>,
)
    requires
        n <= repos.len(),
        forall|k: int| 0 <= k < n ==> #[trigger] repos[k] != repo,
    ensures
        with_answers(known, repos, answers, n).dom().contains(repo) == known.dom().contains(repo),
        with_answers(known, repos, answers, n)[repo] == known[repo],
        with_kept(cache, Some(account), now, repos, answers, n).dom().contains((account, repo))
            == cache.dom().contains((account, repo)),
        with_kept(cache, Some(account), now, repos, answers, n)[(account, repo)] == cache[(
            account,
            repo,
        )],
    decreases n,
{
    if n > 0 {
        lemma_others_stay(known, cache, account, now, repos, answers, (n - 1) as nat, repo);
    }
}

proof fn lemma_stale_no_repeats(
    newest: Seq<(Seq<char>, Seq<char>)>,
    cache: Map<(Seq<char>, Seq<char>), CachedRunsView>,
    account: Option<Seq<char>>,
    now: (int, int),
)
    requires
        ascending(newest),
    ensures
        no_repeats(stale(newest, cache, account, now)),
    decreases newest.len(),
{
    if newest.len() > 0 {
        let front = newest.drop_last();
        let end = newest.len() - 1;
        assert(forall|k: int| 0 <= k < end ==> #[trigger] front[k] == newest[k]);
        lemma_stale_no_repeats(front, cache, account, now);
        lemma_only_listed(front, cache, account, now, newest[end].0);
        let s = stale(front, cache, account, now);
        let t = s.push(newest[end].0);
        assert forall|i: int, j: int| 0 <= i < j < t.len() implies #[trigger] t[i] != #[trigger] t[j] by {
            if j == s.len() {
                assert(s.contains(s[i]));
            }
        }
    }
}

proof fn lemma_stale_listed(
    newest: Seq<(Seq<char>, Seq<char>)>,
    cache: Map<(Seq<char>, Seq<char>), CachedRunsView>,
    account: Option<Seq<char>>,
    now: (int, int),
    repo: Seq<char>,
)
    ensures
        stale(newest, cache, account, now).contains(repo) || served(
            newest,
            cache,
            account,
            now,
        ).dom().contains(repo) ==> exists|i: int|
            0 <= i < newest.len() && (#[trigger] newest[i]).0 == repo,
    decreases newest.len(),
{
    if newest.len() > 0 {
        let front = newest.drop_last();
        let end = newest.len() - 1;
        lemma_stale_listed(front, cache, account, now, repo);
        lemma_contains_push(stale(front, cache, account, now), newest[end].0, repo);
        assert(forall|k: int| 0 <= k < end ==> #[trigger] front[k] == newest[k]);
        if newest[end].0 != repo && (stale(newest, cache, account, now).contains(repo) || served(
            newest,
            cache,
            account,
            now,
        ).dom().contains(repo)) {
            let i = choose|i: int| 0 <= i < front.len() && (#[trigger] front[i]).0 == repo;
            assert(newest[i].0 == repo);
        }
    }
}

/// Each repository to answer for gets the list kept for it, where that may be reused.
/// Otherwise it gets what it answered when it was asked for in one batch with the others,
/// and that is kept for the account; where it did not answer it gets none.
pub proof fn each_repository_gets_its_kept_or_read_runs<R: GhRunner>(
    runner: &R,
    newest: Seq<(Seq<char>, Seq<char>)>,
    key: Option<Seq<char>>,
    now: (int, int),
    before: Map<(Seq<char>, Seq<char>), CachedRunsView>,
    after: Map<(Seq<char>, Seq<char>), CachedRunsView>,
    runs: Map<Seq<char>, Seq<JsonView>>,
    i: int,
)
    requires
        ascending(newest),
        runs_step(runner, newest, key, now, before, after, runs),
        0 <= i < newest.len(),
    ensures
        ({
            let repo = newest[i].0;
            let missing = stale(newest, before, key, now);
            match kept(before, key, repo, newest[i].1, now) {
                Some(list) => runs.dom().contains(repo) && runs[repo] == list,
                None => exists|answers: Vec<Result<Vec<u8>, Error>>, k: int|
                    {
                        &&& #[trigger] answers_batch(runner, runs_calls(missing), answers)
                        &&& 0 <= k < missing.len()
                        &&& #[trigger] missing[k] == repo
                        &&& k >= answers@.len() ==> !runs.dom().contains(repo)
                        &&& k < answers@.len() ==> match answered_runs(answer_view(answers@[k])) {
                            Some(list) => {
                                &&& runs.dom().contains(repo) && runs[repo] == list
                                &&& key matches Some(a) ==> after.dom().contains((a, repo))
                                    && after[(a, repo)] == (CachedRunsView {
                                    fetched_at: now,
                                    runs: list,
                                })
                            },
                            None => !runs.dom().contains(repo),
                        }
                    },
            }
        }),
{
    let repo = newest[i].0;
    let known = served(newest, before, key, now);
    let missing = stale(newest, before, key, now);
    repositories_are_served_or_asked_for(newest, before, key, now, i);
    lemma_stale_no_repeats(newest, before, key, now);
    if missing.len() > 0 {
        let answers = choose|answers: Vec<Result<Vec<u8>, Error>>| #[trigger]
            answers_batch(runner, runs_calls(missing), answers) && runs_taken(
                newest,
                key,
                now,
                before,
                after,
                runs,
                answers_view(answers@),
            );
        let given = answers_view(answers@);
        let n = lesser(missing.len(), given.len());
        let account = match key {
            Some(a) => a,
            None => Seq::empty(),
        };
        match kept(before, key, repo, newest[i].1, now) {
            Some(_) => {
                assert forall|k: int| 0 <= k < n implies #[trigger] missing[k] != repo by {
                    assert(missing.contains(missing[k]));
                }
                lemma_others_stay(known, before, account, now, missing, given, n, repo);
            },
            None => {
                let k = choose|k: int| 0 <= k < missing.len() && missing[k] == repo;
                if k < n {
                    read_runs_are_handed_on_and_kept(
                        known,
                        before,
                        account,
                        now,
                        missing,
                        given,
                        n,
                        k,
                    );
                    assert(given[k] == answer_view(answers@[k]));
                } else {
                    assert forall|m: int| 0 <= m < n implies #[trigger] missing[m] != repo by {}
                    lemma_others_stay(known, before, account, now, missing, given, n, repo);
                }
                assert(answers_batch(runner, runs_calls(missing), answers));
                assert(missing[k] == repo);
            },
        }
    }
}

/// Where some notification is about CI, the links are those that the run lists lead to
/// which their repositories get at the present time.
pub proof fn ci_links_are_resolved<R: GhRunner>(
    runner: &R,
    items: Seq<NotificationView>,
    before: Map<(Seq<char>, Seq<char>), CachedRunsView>,
    after: Map<(Seq<char>, Seq<char>), CachedRunsView>,
    result: Seq<NotificationView>,
    i: int,
)
    requires
        link_step(runner, items, before, after, result),
        0 <= i < items.len(),
        items[i].kind == NotifKindView::CheckSuite,
        items[i].project is Some,
    ensures
        exists|
            newest: Seq<(Seq<char>, Seq<char>)>,
            key: Option<Seq<char>>,
            now: Instant,
            runs: Map<Seq<char>, Seq<JsonView>>,
        |
            {
                &&& ascending(newest)
                &&& map_of(newest) == newest_of(items)
                &&& answers_key(runner, key)
                &&& call_ensures(Instant::now, (), now)
                &&& #[trigger] runs_step(runner, newest, key, now@, before, after, runs)
                &&& result == linked(items, runs)
            },
{
    let repo = items[i].project->0;
    newest_is_the_latest_update(items, repo);
    assert(is_ci_of(items[i], repo));
    assert(newest_of(items).dom().contains(repo));
}

/// Only repositories that have to be answered for are served or asked for, and none is
/// asked for twice.
pub proof fn nothing_else_is_served_or_asked_for(
    newest: Seq<(Seq<char>, Seq<char>)>,
    cache: Map<(Seq<char>, Seq<char>), CachedRunsView>,
    account: Option<Seq<char>>,
    now: (int, int),
    repo: Seq<char>,
)
    requires
        ascending(newest),
        forall|i: int| 0 <= i < newest.len() ==> (#[trigger] newest[i]).0 != repo,
    ensures
        !served(newest, cache, account, now).dom().contains(repo),
        !stale(newest, cache, account, now).contains(repo),
        no_repeats(stale(newest, cache, account, now)),
{
    lemma_stale_listed(newest, cache, account, now, repo);
    lemma_stale_no_repeats(newest, cache, account, now);
}

/// What is read for an account leaves every other account's lists alone, and those of
/// repositories that were not asked for.
pub proof fn other_lists_stay(
    known: Map<Seq<char>, Seq<JsonView>>,
    cache: Map<(Seq<char>, Seq<char>), CachedRunsView>,
    account: Option<Seq<char>>,
    now: (int, int),
    repos: Seq<Seq<char>>,
    answers: Seq<Result<Seq<u8>, ErrorView>>,
    n: nat,
    other: Seq<char>,
    repo: Seq<char>,
)
    requires
        n <= repos.len(),
    ensures
        ({
            let after = with_kept(cache, account, now, repos, answers, n);
            let out = with_answers(known, repos, answers, n);
            let asked = exists|k: int| 0 <= k < n && #[trigger] repos[k] == repo;
            &&& account != Some(other) || !asked ==> after.dom().contains((other, repo))
                == cache.dom().contains((other, repo)) && after[(other, repo)] == cache[(
                other,
                repo,
            )]
            &&& !asked ==> out.dom().contains(repo) == known.dom().contains(repo) && out[repo]
                == known[repo]
        }),
    decreases n,
{
    if n > 0 {
        let m = (n - 1) as nat;
        other_lists_stay(known, cache, account, now, repos, answers, m, other, repo);
        if repos[m as int] == repo {
            assert(exists|k: int| 0 <= k < n && #[trigger] repos[k] == repo);
        }
        if exists|k: int| 0 <= k < m && #[trigger] repos[k] == repo {
            let k = choose|k: int| 0 <= k < m && #[trigger] repos[k] == repo;
            assert(repos[k] == repo && k < n);
        }
    }
}

/// A poll whose run lists were all read, and a later one that finds them still
/// covering their repositories: the later one asks for nothing and works with the
/// very same run lists, so it resolves the same links.
pub proof fn a_later_poll_reuses_what_was_read(
    newest: Seq<(Seq<char>, Seq<char>)>,
    cache: Map<(Seq<char>, Seq<char>), CachedRunsView>,
    account: Seq<char>,
    now: (int, int),
    answers: Seq<Result<Seq<u8>, ErrorView>>,
    later: (int, int),
)
    requires
        ascending(newest),
        answers.len() == stale(newest, cache, Some(account), now).len(),
        forall|k: int| 0 <= k < answers.len() ==> answered_runs(#[trigger] answers[k]) is Some,
        ({
            let missing = stale(newest, cache, Some(account), now);
            let after = with_kept(cache, Some(account), now, missing, answers, missing.len());
            forall|i: int|
                0 <= i < newest.len() ==> covers(
                    after[(account, (#[trigger] newest[i]).0)].fetched_at,
                    Some(newest[i].1),
                    later,
                )
        }),
    ensures
        ({
            let known = served(newest, cache, Some(account), now);
            let missing = stale(newest, cache, Some(account), now);
            let after = with_kept(cache, Some(account), now, missing, answers, missing.len());
            &&& stale(newest, after, Some(account), later) == Seq::<Seq<char>>::empty()
            &&& served(newest, after, Some(account), later) == with_answers(
                known,
                missing,
                answers,
                missing.len(),
            )
        }),
{
    let key = Some(account);
    let known = served(newest, cache, key, now);
    let missing = stale(newest, cache, key, now);
    let n = missing.len();
    let after = with_kept(cache, key, now, missing, answers, n);
    let out = with_answers(known, missing, answers, n);
    lemma_stale_no_repeats(newest, cache, key, now);
    assert forall|i: int| 0 <= i < newest.len() implies {
        let repo = (#[trigger] newest[i]).0;
        &&& after.dom().contains((account, repo))
        &&& out.dom().contains(repo)
        &&& out[repo] == after[(account, repo)].runs
    } by {
        let repo = newest[i].0;
        repositories_are_served_or_asked_for(newest, cache, key, now, i);
        match kept(cache, key, repo, newest[i].1, now) {
            Some(runs) => {
                assert forall|k: int| 0 <= k < n implies #[trigger] missing[k] != repo by {
                    assert(missing.contains(missing[k]));
                }
                lemma_others_stay(known, cache, account, now, missing, answers, n, repo);
            },
            None => {
                let k = choose|k: int| 0 <= k < missing.len() && missing[k] == repo;
                assert(answered_runs(answers[k]) is Some);
                read_runs_are_handed_on_and_kept(
                    known,
                    cache,
                    account,
                    now,
                    missing,
                    answers,
                    n,
                    k,
                );
            },
        }
    }
    let again = served(newest, after, key, later);
    let left = stale(newest, after, key, later);
    assert(left =~= Seq::<Seq<char>>::empty()) by {
        if left.len() > 0 {
            let repo = left[0];
            assert(left.contains(repo));
            lemma_stale_listed(newest, after, key, later, repo);
            let i = choose|i: int| 0 <= i < newest.len() && (#[trigger] newest[i]).0 == repo;
            repositories_are_served_or_asked_for(newest, after, key, later, i);
        }
    }
    assert forall|repo: Seq<char>| #[trigger] again.dom().contains(repo) <==> out.dom().contains(
        repo,
    ) by {
        if again.dom().contains(repo) {
            lemma_stale_listed(newest, after, key, later, repo);
            let i = choose|i: int| 0 <= i < newest.len() && (#[trigger] newest[i]).0 == repo;
            assert(out.dom().contains(newest[i].0));
        }
        if out.dom().contains(repo) {
            lemma_stale_listed(newest, cache, key, now, repo);
            if !known.dom().contains(repo) && !missing.contains(repo) {
                assert forall|k: int| 0 <= k < n implies #[trigger] missing[k] != repo by {
                    assert(missing.contains(missing[k]));
                }
                lemma_others_stay(known, cache, account, now, missing, answers, n, repo);
            }
            let i = choose|i: int| 0 <= i < newest.len() && (#[trigger] newest[i]).0 == repo;
            repositories_are_served_or_asked_for(newest, after, key, later, i);
        }
    }
    assert forall|repo: Seq<char>| #[trigger] again.dom().contains(repo) implies again[repo]
        == out[repo] by {
        lemma_stale_listed(newest, after, key, later, repo);
        let i = choose|i: int| 0 <= i < newest.len() && (#[trigger] newest[i]).0 == repo;
        repositories_are_served_or_asked_for(newest, after, key, later, i);
        assert(out[newest[i].0] == after[(account, newest[i].0)].runs);
    }
    assert(again =~= out);
}

// ----------------------------------------------------------------------------
// The login between polls
// ----------------------------------------------------------------------------

/// A login that was looked up for an account is kept: no login is missing for that
/// account, so a later lookup has nothing to ask. It gives the login back and
/// changes nothing.
pub proof fn a_login_is_looked_up_once<R: GhRunner, S: GhRunner>(
    first: &R,
    second: &S,
    key: Seq<char>,
    before: Map<Seq<char>, Seq<char>>,
    between: Map<Seq<char>, Seq<char>>,
    after: Map<Seq<char>, Seq<char>>,
    login: Seq<char>,
    again: Result<Seq<char>, ErrorView>,
)
    requires
        login_step(first, Some(key), before, between, Ok(login)),
        login_step(second, Some(key), between, after, again),
    ensures
        !login_missing(Some(key), between),
        between[key] == login,
        again == Ok::<Seq<char>, ErrorView>(login),
        after == between,
{
}

/// A lookup touches no other account's login, a failed one none at all, nor one
/// without an account.
pub proof fn a_lookup_touches_only_its_account<R: GhRunner>(
    runner: &R,
    key: Option<Seq<char>>,
    before: Map<Seq<char>, Seq<char>>,
    after: Map<Seq<char>, Seq<char>>,
    login: Result<Seq<char>, ErrorView>,
    other: Seq<char>,
)
    requires
        login_step(runner, key, before, after, login),
    ensures
        key != Some(other) ==> after.dom().contains(other) == before.dom().contains(other)
            && after[other] == before[other],
        key is None || login is Err ==> after == before,
{
}

// ----------------------------------------------------------------------------
// The token between calls
// ----------------------------------------------------------------------------

/// A host's token is read at most once: after a lookup nothing is missing for that
/// host, so a later one has no call of its reader to make. It gives back what the
/// first one gave, a missing token included, and changes nothing.
pub proof fn a_token_is_read_once(
    host: Seq<char>,
    same_host: Seq<char>,
    before: Map<Seq<char>, Option<Seq<char>>>,
    between: Map<Seq<char>, Option<Seq<char>>>,
    after: Map<Seq<char>, Option<Seq<char>>>,
    token: Option<Seq<char>>,
    again: Option<Seq<char>>,
)
    requires
        host_name(host) == host_name(same_host),
        token_step(host, before, between, token),
        token_step(same_host, between, after, again),
    ensures
        !token_missing(same_host, between),
        again == token,
        after == between,
{
    assert(after =~= between);
}

}
