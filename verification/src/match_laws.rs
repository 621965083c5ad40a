//! Which run a CI notification is linked to, and which run lists are reused for it, in
//! terms of the points in time concerned.
use crate::clock::{instant_of, nanos_from, no_later, rfc3339, seconds_from};
use crate::entities::{NotifKindView, NotificationView};
use crate::error::ErrorView;
use crate::json::{decoded, JsonView};
use crate::json_laws::{states_text, texts_are_what_is_stated};
use crate::run_laws::{chosen_run_is_the_first_nearest, is_ci_of, newest_is_the_latest_update};
use crate::runs::{
    branch_of, distance_of, distances_of, is_run_of, nearest, run_page, runs_in, runs_words,
    workflow_of,
};
use crate::snapshots::{
    answered_runs, covers, kept, linked, merged, newest_of, runs_calls, CachedRunsView,
};
use crate::tasks::or_empty;
use crate::text::{
    decimal, decimal_nat, ends_with, is_white, trim_end, trim_start, trimmed, without_suffix,
};
use crate::text_laws::{
    a_suffix_is_taken_off, all_white, ascii_white_space, no_white_ends, stands_at, stands_first_at, stands_nowhere,
    the_first_place_is_found, the_last_piece_lies_behind_the_last_mark,
    the_second_piece_lies_between_marks, trimming_takes_off_white_ends,
};
use vstd::prelude::*;

verus! {

// ----------------------------------------------------------------------------
// Points in time
// ----------------------------------------------------------------------------

/// The point in time that a text is read as.
pub open spec fn time_in(s: Seq<char>) -> Option<(int, int)> {
    match rfc3339(s) {
        Some(t) => Some((t.0 as int, t.1 as int)),
        None => None,
    }
}

/// A point in time as nanoseconds since 1970.
pub open spec fn scale(t: (int, int)) -> int {
    t.0 * 1_000_000_000 + t.1
}

/// Whether a point in time lies outside leap seconds.
pub open spec fn plain(t: (int, int)) -> bool {
    0 <= t.1 < 1_000_000_000
}

/// How far two points in time are apart, whichever comes first.
pub open spec fn gap(a: (int, int), b: (int, int)) -> int {
    if scale(a) < scale(b) {
        scale(b) - scale(a)
    } else {
        scale(a) - scale(b)
    }
}

/// A timestamp denotes the point in time that it is read as.
pub proof fn timestamps_denote_what_they_are_read_as(s: Seq<char>)
    ensures
        instant_of(s) == time_in(s),
{
}

/// The time from one point to another is the way between them, and back it is the same
/// with the other sign. Only a leap second that the way passes within the day adds one
/// second.
pub proof fn times_between_are_differences(a: (int, int), b: (int, int))
    ensures
        plain(a) && plain(b) ==> nanos_from(a, b) == scale(a) - scale(b),
        nanos_from(a, b) == -nanos_from(b, a),
        a.0 % 86400 == b.0 % 86400 ==> nanos_from(a, b) == scale(a) - scale(b),
        a.0 % 86400 > b.0 % 86400 ==> nanos_from(a, b) == scale(a) - scale(b) + (if b.1
            >= 1_000_000_000 {
            1_000_000_000int
        } else {
            0
        }),
{
}

/// The whole seconds of a time are those that it is made of, with its sign.
pub proof fn whole_seconds_are_those_within(a: (int, int), b: (int, int))
    ensures
        nanos_from(a, b) >= 0 ==> 0 <= nanos_from(a, b) - seconds_from(a, b) * 1_000_000_000
            < 1_000_000_000,
        nanos_from(a, b) < 0 ==> -1_000_000_000 < nanos_from(a, b) - seconds_from(a, b)
            * 1_000_000_000 <= 0,
{
}

/// Points in time are in order: one of two is no later, both only where they are the
/// same, and outside leap seconds it is the one with the smaller number.
pub proof fn points_in_time_are_in_order(a: (int, int), b: (int, int))
    ensures
        no_later(a, b) || no_later(b, a),
        no_later(a, b) && no_later(b, a) ==> a == b,
        plain(a) && plain(b) ==> (no_later(a, b) <==> scale(a) <= scale(b)),
        a.0 == b.0 ==> (no_later(a, b) <==> a.1 <= b.1),
{
}

// ----------------------------------------------------------------------------
// Titles
// ----------------------------------------------------------------------------

/// The workflow is what stands before the first "workflow run", without the white space
/// around it; without those words, or with nothing before them, there is none.
pub proof fn the_workflow_stands_before_its_mark(
    title: Seq<char>,
    i: int,
    before: Seq<char>,
    name: Seq<char>,
    behind: Seq<char>,
)
    requires
        all_white(before),
        all_white(behind),
        no_white_ends(name),
    ensures
        stands_nowhere(title, " workflow run"@) ==> workflow_of(title) is None,
        stands_first_at(title, " workflow run"@, i) && title.take(i) == before + name + behind
            ==> workflow_of(title) == (if name.len() == 0 {
            None
        } else {
            Some(name)
        }),
{
    the_first_place_is_found(title, " workflow run"@, i);
    trimming_takes_off_white_ends(before, name, behind);
}

/// Where a title does not end in the word "branch", the branch is what stands behind its
/// only "for", without the white space around it. A title without a "for" names none.
pub proof fn without_the_closing_word_the_branch_stands_behind_for(
    title: Seq<char>,
    i: int,
    before: Seq<char>,
    branch: Seq<char>,
    behind: Seq<char>,
)
    requires
        all_white(before),
        all_white(behind),
        no_white_ends(branch),
    ensures
        stands_nowhere(title, " for "@) ==> branch_of(title) is None,
        stands_first_at(title, " for "@, i) && stands_nowhere(title.skip(i + 5), " for "@)
            && title.skip(i + 5) == before + branch + behind && !ends_with(
            trimmed(title),
            " branch"@,
        ) && !ends_with(branch, " branch"@) ==> branch_of(title) == (if branch.len() == 0 {
            None
        } else {
            Some(branch)
        }),
{
    reveal_strlit(" for ");
    the_second_piece_lies_between_marks(title, " for "@, i, 0);
    trimming_takes_off_white_ends(before, branch, behind);
    trimming_takes_off_white_ends(Seq::empty(), branch, Seq::empty());
    assert(Seq::<char>::empty() + branch + Seq::<char>::empty() =~= branch);
    if stands_nowhere(title, " for "@) && ends_with(trimmed(title), " branch"@) {
        let (a, b) = lemma_trimmed_is_part(title);
        let body = without_suffix(trimmed(title), " branch"@);
        assert forall|j: int| !#[trigger] stands_at(body, " for "@, j) by {
            if stands_at(body, " for "@, j) {
                assert forall|k: int| 0 <= k < " for "@.len() implies title[a + j + k]
                    == #[trigger] " for "@[k] by {
                    assert(body[j + k] == " for "@[k]);
                    assert(body[j + k] == trimmed(title)[j + k]);
                }
                assert(stands_at(title, " for "@, a + j));
            }
        }
        the_last_piece_lies_behind_the_last_mark(body, " for "@, 0);
    }
}

/// Where a title goes on behind the branch with a further "for", the branch is what
/// stands between the two, without the word "branch" and the white space around it.
pub proof fn a_branch_between_two_fors(
    title: Seq<char>,
    i: int,
    j: int,
    before: Seq<char>,
    branch: Seq<char>,
    behind: Seq<char>,
)
    requires
        all_white(before),
        all_white(behind),
        no_white_ends(branch),
        branch.len() > 0,
        !ends_with(trimmed(title), " branch"@),
        stands_first_at(title, " for "@, i),
        stands_first_at(title.skip(i + 5), " for "@, j),
        title.subrange(i + 5, i + 5 + j) == before + (branch + " branch"@) + behind,
    ensures
        branch_of(title) == Some(branch),
{
    reveal_strlit(" for ");
    reveal_strlit(" branch");
    ascii_white_space('h');
    let core = branch + " branch"@;
    assert(core[0] == branch[0]);
    assert(core.last() == 'h');
    the_second_piece_lies_between_marks(title, " for "@, i, j);
    trimming_takes_off_white_ends(before, core, behind);
    a_suffix_is_taken_off(core, branch, " branch"@);
    trimming_takes_off_white_ends(Seq::empty(), branch, Seq::empty());
    assert(Seq::<char>::empty() + branch + Seq::<char>::empty() =~= branch);
}

proof fn lemma_trimmed_is_part(s: Seq<char>) -> (r: (int, int))
    ensures
        0 <= r.0 <= r.1 <= s.len(),
        trimmed(s) == s.subrange(r.0, r.1),
{
    let a = lemma_trim_start_part(s);
    let t = s.skip(a);
    let n = lemma_trim_end_part(t);
    assert(t.take(n) =~= s.subrange(a, a + n));
    (a, a + n)
}

proof fn lemma_trim_start_part(s: Seq<char>) -> (a: int)
    ensures
        0 <= a <= s.len(),
        trim_start(s) == s.skip(a),
    decreases s.len(),
{
    if s.len() > 0 && is_white(s[0]) {
        let rest = s.drop_first();
        let a = lemma_trim_start_part(rest);
        assert(rest.skip(a) =~= s.skip(a + 1));
        a + 1
    } else {
        assert(s.skip(0) =~= s);
        0
    }
}

proof fn lemma_trim_end_part(s: Seq<char>) -> (n: int)
    ensures
        0 <= n <= s.len(),
        trim_end(s) == s.take(n),
    decreases s.len(),
{
    if s.len() > 0 && is_white(s.last()) {
        let rest = s.drop_last();
        let n = lemma_trim_end_part(rest);
        assert(rest.take(n) =~= s.take(n));
        n
    } else {
        assert(s.take(s.len() as int) =~= s);
        s.len() as int
    }
}

// ----------------------------------------------------------------------------
// The linked run
// ----------------------------------------------------------------------------

/// Whether a run states that workflow as its name and, where a branch is given, that
/// branch.
pub open spec fn is_of(run: JsonView, workflow: Seq<char>, branch: Option<Seq<char>>) -> bool {
    &&& states_text(run, "name"@, workflow)
    &&& branch matches Some(b) ==> states_text(run, "head_branch"@, b)
}

/// Whether a run states an update time that is read as `u`.
pub open spec fn dated(run: JsonView, u: (int, int)) -> bool {
    exists|s: Seq<char>| #[trigger]
        states_text(run, "updated_at"@, s) && time_in(s) == Some(u)
}

proof fn lemma_is_of(run: JsonView, workflow: Seq<char>, branch: Option<Seq<char>>)
    ensures
        is_run_of(run, workflow, branch) <==> is_of(run, workflow, branch),
{
    texts_are_what_is_stated(run, "name"@, workflow);
    if let Some(b) = branch {
        texts_are_what_is_stated(run, "head_branch"@, b);
    }
}

/// A run's distance from a point in time is the gap between the two, outside leap
/// seconds; so of two runs on one side of it the one in between is the nearer.
pub proof fn a_runs_distance_is_the_gap(run: JsonView, t: (int, int), u: (int, int))
    requires
        dated(run, u),
        plain(t),
        plain(u),
    ensures
        distance_of(run, Some(t)) == gap(t, u),
{
    let s = choose|s: Seq<char>| #[trigger]
        states_text(run, "updated_at"@, s) && time_in(s) == Some(u);
    texts_are_what_is_stated(run, "updated_at"@, s);
    times_between_are_differences(t, u);
}

/// A run's distance from any point in time, leap seconds included, is the time between
/// the two without its sign.
pub proof fn a_runs_distance_is_the_time_between(run: JsonView, t: (int, int), u: (int, int))
    requires
        dated(run, u),
    ensures
        distance_of(run, Some(t)) >= 0,
        distance_of(run, Some(t)) == nanos_from(t, u) || distance_of(run, Some(t)) == nanos_from(
            u,
            t,
        ),
{
    let s = choose|s: Seq<char>| #[trigger]
        states_text(run, "updated_at"@, s) && time_in(s) == Some(u);
    texts_are_what_is_stated(run, "updated_at"@, s);
    times_between_are_differences(t, u);
}

/// Whatever lies between a run's time and the notification's is nearer to the latter,
/// and strictly so where the times differ.
pub proof fn a_run_in_between_is_nearer(
    near: JsonView,
    far: JsonView,
    t: (int, int),
    u: (int, int),
    x: (int, int),
)
    requires
        dated(near, u),
        dated(far, x),
        plain(t),
        plain(u),
        plain(x),
        (scale(x) <= scale(u) <= scale(t)) || (scale(t) <= scale(u) <= scale(x)),
    ensures
        distance_of(near, Some(t)) <= distance_of(far, Some(t)),
        u != x ==> distance_of(near, Some(t)) < distance_of(far, Some(t)),
{
    a_runs_distance_is_the_gap(near, t, u);
    a_runs_distance_is_the_gap(far, t, x);
}

/// A run without a readable time is farther than any run with one, and every run is
/// where the notification has none.
pub proof fn unknown_times_are_farthest(
    known: JsonView,
    unknown: JsonView,
    updated: Seq<char>,
    u: (int, int),
)
    requires
        dated(known, u),
        forall|x: (int, int)| !#[trigger] dated(unknown, x),
        time_in(updated) is Some,
    ensures
        distance_of(known, time_in(updated)) < distance_of(unknown, time_in(updated)),
        distance_of(known, None) == distance_of(unknown, None),
{
    let s = choose|s: Seq<char>| #[trigger]
        states_text(known, "updated_at"@, s) && time_in(s) == Some(u);
    texts_are_what_is_stated(known, "updated_at"@, s);
    if let Some(x) = unknown.text_at("updated_at"@) {
        texts_are_what_is_stated(unknown, "updated_at"@, x);
        if let Some(v) = time_in(x) {
            assert(dated(unknown, v));
        }
    }
}

/// The page given is that of a run of the title's workflow and branch to which no other
/// such run is nearer in time, and none that is listed before it is as near. It is that
/// run's page or none; no other run's page takes its place.
pub proof fn the_linked_run_is_the_nearest_in_time(
    runs: Seq<JsonView>,
    title: Seq<char>,
    updated: Seq<char>,
    workflow: Seq<char>,
    t: (int, int),
    some: int,
) -> (i: int)
    requires
        workflow_of(title) == Some(workflow),
        time_in(updated) == Some(t),
        plain(t),
        0 <= some < runs.len(),
        is_of(runs[some], workflow, branch_of(title)),
        forall|j: int|
            0 <= j < runs.len() && is_of(#[trigger] runs[j], workflow, branch_of(title))
                ==> exists|u: (int, int)| plain(u) && #[trigger] dated(runs[j], u),
    ensures
        0 <= i < runs.len(),
        is_of(runs[i], workflow, branch_of(title)),
        forall|page: Seq<char>|
            run_page(runs, title, updated) == Some(page) <==> #[trigger] states_text(
                runs[i],
                "html_url"@,
                page,
            ),
        forall|j: int, u: (int, int), x: (int, int)|
            0 <= j < runs.len() && is_of(runs[j], workflow, branch_of(title)) && #[trigger] dated(
                runs[i],
                u,
            ) && #[trigger] dated(runs[j], x) ==> gap(t, u) <= gap(t, x) && (j < i ==> gap(t, u)
                < gap(t, x)),
{
    let branch = branch_of(title);
    let distances = distances_of(runs, instant_of(updated));
    let n = runs.len() as int;
    chosen_run_is_the_first_nearest(runs, workflow, branch, distances, n);
    assert forall|j: int| 0 <= j < n implies (is_run_of(#[trigger] runs[j], workflow, branch)
        <==> is_of(runs[j], workflow, branch)) by {
        lemma_is_of(runs[j], workflow, branch);
    }
    let first = runs[some];
    assert(is_run_of(first, workflow, branch));
    let i = nearest(runs, workflow, branch, distances, n)->0;
    assert forall|page: Seq<char>|
        run_page(runs, title, updated) == Some(page) <==> #[trigger] states_text(
            runs[i],
            "html_url"@,
            page,
        ) by {
        texts_are_what_is_stated(runs[i], "html_url"@, page);
    }
    assert forall|j: int, u: (int, int), x: (int, int)|
        0 <= j < runs.len() && is_of(runs[j], workflow, branch) && #[trigger] dated(runs[i], u)
            && #[trigger] dated(runs[j], x) implies gap(t, u) <= gap(t, x) && (j < i ==> gap(t, u)
        < gap(t, x)) by {
        lemma_plain(runs[i], u);
        lemma_plain(runs[j], x);
        a_runs_distance_is_the_gap(runs[i], t, u);
        a_runs_distance_is_the_gap(runs[j], t, x);
        assert(distances[i] == distance_of(runs[i], Some(t)));
        assert(distances[j] == distance_of(runs[j], Some(t)));
        assert(is_run_of(runs[j], workflow, branch));
    }
    i
}

/// Whatever can be read of the times, the page given is that of a run of the title's
/// workflow and branch at the least distance, the first of several.
pub proof fn the_linked_run_is_at_the_least_distance(
    runs: Seq<JsonView>,
    title: Seq<char>,
    updated: Seq<char>,
    workflow: Seq<char>,
    some: int,
) -> (i: int)
    requires
        workflow_of(title) == Some(workflow),
        0 <= some < runs.len(),
        is_of(runs[some], workflow, branch_of(title)),
    ensures
        0 <= i < runs.len(),
        is_of(runs[i], workflow, branch_of(title)),
        forall|page: Seq<char>|
            run_page(runs, title, updated) == Some(page) <==> #[trigger] states_text(
                runs[i],
                "html_url"@,
                page,
            ),
        forall|j: int|
            0 <= j < runs.len() && is_of(#[trigger] runs[j], workflow, branch_of(title)) ==> {
                let near = distance_of(runs[i], time_in(updated));
                let other = distance_of(runs[j], time_in(updated));
                near <= other && (j < i ==> near < other)
            },
{
    let branch = branch_of(title);
    let distances = distances_of(runs, instant_of(updated));
    let n = runs.len() as int;
    chosen_run_is_the_first_nearest(runs, workflow, branch, distances, n);
    assert forall|j: int| 0 <= j < n implies (is_run_of(#[trigger] runs[j], workflow, branch)
        <==> is_of(runs[j], workflow, branch)) by {
        lemma_is_of(runs[j], workflow, branch);
    }
    let first = runs[some];
    assert(is_run_of(first, workflow, branch));
    let i = nearest(runs, workflow, branch, distances, n)->0;
    assert forall|page: Seq<char>|
        run_page(runs, title, updated) == Some(page) <==> #[trigger] states_text(
            runs[i],
            "html_url"@,
            page,
        ) by {
        texts_are_what_is_stated(runs[i], "html_url"@, page);
    }
    assert forall|j: int|
        0 <= j < runs.len() && is_of(#[trigger] runs[j], workflow, branch) implies {
        let near = distance_of(runs[i], time_in(updated));
        let other = distance_of(runs[j], time_in(updated));
        near <= other && (j < i ==> near < other)
    } by {
        assert(distances[i] == distance_of(runs[i], time_in(updated)));
        assert(distances[j] == distance_of(runs[j], time_in(updated)));
        assert(is_run_of(runs[j], workflow, branch));
    }
    i
}

proof fn lemma_plain(run: JsonView, u: (int, int))
    requires
        dated(run, u),
        exists|x: (int, int)| plain(x) && #[trigger] dated(run, x),
    ensures
        plain(u),
{
    let x = choose|x: (int, int)| plain(x) && #[trigger] dated(run, x);
    let s = choose|s: Seq<char>| #[trigger]
        states_text(run, "updated_at"@, s) && time_in(s) == Some(u);
    let r = choose|r: Seq<char>| #[trigger]
        states_text(run, "updated_at"@, r) && time_in(r) == Some(x);
    texts_are_what_is_stated(run, "updated_at"@, s);
    texts_are_what_is_stated(run, "updated_at"@, r);
}

/// Where the notification's time cannot be read, the first run of the workflow and
/// branch is taken.
pub proof fn without_a_time_the_first_run_is_taken(
    runs: Seq<JsonView>,
    title: Seq<char>,
    updated: Seq<char>,
    workflow: Seq<char>,
    i: int,
    page: Seq<char>,
)
    requires
        workflow_of(title) == Some(workflow),
        time_in(updated) is None,
        0 <= i < runs.len(),
        is_of(runs[i], workflow, branch_of(title)),
        forall|j: int| 0 <= j < i ==> !is_of(#[trigger] runs[j], workflow, branch_of(title)),
    ensures
        run_page(runs, title, updated) == Some(page) <==> states_text(runs[i], "html_url"@, page),
{
    let branch = branch_of(title);
    let distances = distances_of(runs, instant_of(updated));
    let n = runs.len() as int;
    chosen_run_is_the_first_nearest(runs, workflow, branch, distances, n);
    assert forall|j: int| 0 <= j < n implies (is_run_of(#[trigger] runs[j], workflow, branch)
        <==> is_of(runs[j], workflow, branch)) by {
        lemma_is_of(runs[j], workflow, branch);
    }
    let first = runs[i];
    assert(is_run_of(first, workflow, branch));
    let c = nearest(runs, workflow, branch, distances, n)->0;
    assert(distances[c] == distances[i]);
    assert(c == i);
    texts_are_what_is_stated(runs[i], "html_url"@, page);
}

/// Without a run of the workflow and branch there is no page, nor for a title that names
/// no workflow.
pub proof fn without_a_run_there_is_no_page(
    runs: Seq<JsonView>,
    title: Seq<char>,
    updated: Seq<char>,
)
    requires
        workflow_of(title) matches Some(workflow) ==> forall|j: int|
            0 <= j < runs.len() ==> !is_of(#[trigger] runs[j], workflow, branch_of(title)),
    ensures
        run_page(runs, title, updated) is None,
{
    if let Some(workflow) = workflow_of(title) {
        let branch = branch_of(title);
        let distances = distances_of(runs, instant_of(updated));
        chosen_run_is_the_first_nearest(runs, workflow, branch, distances, runs.len() as int);
        if let Some(i) = nearest(runs, workflow, branch, distances, runs.len() as int) {
            lemma_is_of(runs[i], workflow, branch);
        }
    }
}

/// A repository's runs are asked for by its name, a hundred at a time, and cut down to
/// the fields that are read.
pub proof fn runs_are_asked_for_by_repository(repos: Seq<Seq<char>>, i: int)
    requires
        0 <= i < repos.len(),
    ensures
        runs_calls(repos).len() == repos.len(),
        runs_calls(repos)[i] == seq![
            "api"@,
            "repos/"@ + repos[i] + "/actions/runs?per_page=100"@,
            "--jq"@,
            "[.workflow_runs[] | {name, head_branch, updated_at, html_url}]"@,
        ],
{
    reveal_strlit("/actions/runs?per_page=");
    reveal_strlit("/actions/runs?per_page=100");
    reveal_with_fuel(decimal_nat, 4);
    assert(decimal(100) =~= seq!['1', '0', '0']);
    assert("/actions/runs?per_page="@ + decimal(100) =~= "/actions/runs?per_page=100"@);
    assert("repos/"@ + repos[i] + "/actions/runs?per_page="@ + decimal(100) =~= "repos/"@
        + repos[i] + "/actions/runs?per_page=100"@);
    assert(runs_words(repos[i]) =~= seq![
        "api"@,
        "repos/"@ + repos[i] + "/actions/runs?per_page=100"@,
        "--jq"@,
        "[.workflow_runs[] | {name, head_branch, updated_at, html_url}]"@,
    ]);
}

/// A repository's answer gives the runs that its output holds; a failure, or output that
/// holds no array of values, gives none.
pub proof fn answers_give_the_runs_they_hold(
    answer: Result<Seq<u8>, ErrorView>,
    runs: Seq<JsonView>,
)
    ensures
        answered_runs(answer) == Some(runs) <==> (answer matches Ok(raw) && decoded(raw) == Ok::<
            Seq<JsonView>,
            Seq<char>,
        >(runs)),
        answer matches Ok(raw) ==> runs_in(raw) == answered_runs(answer),
{
}

// ----------------------------------------------------------------------------
// Reuse
// ----------------------------------------------------------------------------

/// A run list is reused exactly while it is younger than ten minutes and was read no
/// earlier than the notification was updated. A time that cannot be read forces a
/// refetch, and so does a missing one.
pub proof fn a_list_is_reused_while_young_and_newer(
    fetched: (int, int),
    updated: Seq<char>,
    now: (int, int),
)
    requires
        plain(fetched),
        plain(now),
    ensures
        match time_in(updated) {
            Some(u) => {
                let young = scale(now) - scale(fetched) < 600_000_000_000;
                let newer = u.0 < fetched.0 || (u.0 == fetched.0 && u.1 <= fetched.1);
                &&& covers(fetched, Some(updated), now) <==> newer && young
                &&& plain(u) ==> (covers(fetched, Some(updated), now) <==> scale(u) <= scale(
                    fetched,
                ) && young)
            },
            None => !covers(fetched, Some(updated), now),
        },
        !covers(fetched, None, now),
{
}

/// Leap seconds included, a run list is reused exactly while fewer than 600 whole seconds
/// have passed since it was read and it was read no earlier than the update.
pub proof fn a_list_is_reused_by_whole_seconds(
    fetched: (int, int),
    updated: Seq<char>,
    now: (int, int),
)
    ensures
        covers(fetched, Some(updated), now) <==> (time_in(updated) matches Some(u) && no_later(
            u,
            fetched,
        ) && seconds_from(now, fetched) < 600),
        !covers(fetched, None, now),
{
}

/// For an account, a repository's kept list is what is given where it may be reused, and
/// nothing otherwise. Without an account there is nothing.
pub proof fn a_kept_list_is_given_as_it_is(
    cache: Map<(Seq<char>, Seq<char>), CachedRunsView>,
    account: Seq<char>,
    repo: Seq<char>,
    updated: Seq<char>,
    now: (int, int),
)
    requires
        plain(now),
        cache.dom().contains((account, repo)) ==> plain(cache[(account, repo)].fetched_at),
    ensures
        kept(cache, None, repo, updated, now) is None,
        !cache.dom().contains((account, repo)) ==> kept(cache, Some(account), repo, updated, now)
            is None,
        cache.dom().contains((account, repo)) ==> {
            let entry = cache[(account, repo)];
            let young = scale(now) - scale(entry.fetched_at) < 600_000_000_000;
            let newer = match time_in(updated) {
                Some(u) => no_later(u, entry.fetched_at),
                None => false,
            };
            kept(cache, Some(account), repo, updated, now) == (if young && newer {
                Some(entry.runs)
            } else {
                None
            })
        },
{
    if cache.dom().contains((account, repo)) {
        a_list_is_reused_while_young_and_newer(
            cache[(account, repo)].fetched_at,
            updated,
            now,
        );
    }
}

/// Whether a notification is about CI in that repository.
pub open spec fn ci_in(item: NotificationView, repo: Seq<char>) -> bool {
    item.kind == NotifKindView::CheckSuite && item.project == Some(repo)
}

/// A repository has to be answered for exactly where it has a CI notification. The time
/// to answer for is one that such a notification states, if any does; one that cannot be
/// read, where there is one; and otherwise the latest of them.
pub proof fn the_time_to_answer_for_is_the_latest(
    items: Seq<NotificationView>,
    repo: Seq<char>,
    i: int,
    s: Seq<char>,
)
    requires
        0 <= i < items.len(),
        ci_in(items[i], repo),
        items[i].updated_at == Some(s),
        s.len() > 0,
    ensures
        newest_of(items).dom().contains(repo),
        ({
            let newest = newest_of(items)[repo];
            &&& exists|k: int|
                0 <= k < items.len() && ci_in(#[trigger] items[k], repo) && items[k].updated_at
                    == Some(newest)
            &&& newest.len() > 0
            &&& time_in(s) is None ==> time_in(newest) is None
            &&& match (time_in(s), time_in(newest)) {
                (Some(u), Some(m)) => no_later(u, m) && (plain(u) && plain(m) ==> scale(u)
                    <= scale(m)),
                _ => true,
            }
        }),
{
    newest_is_the_latest_update(items, repo);
    assert(is_ci_of(items[i], repo));
    let newest = newest_of(items)[repo];
    let k = choose|k: int|
        0 <= k < items.len() && is_ci_of(#[trigger] items[k], repo) && or_empty(
            items[k].updated_at,
        ) == newest;
    assert(ci_in(items[k], repo));
}

/// A repository without a CI notification has nothing to answer for.
pub proof fn only_ci_has_to_be_answered_for(items: Seq<NotificationView>, repo: Seq<char>)
    ensures
        newest_of(items).dom().contains(repo) <==> exists|k: int|
            0 <= k < items.len() && ci_in(#[trigger] items[k], repo),
        newest_of(items).dom().contains(repo) && (forall|k: int|
            0 <= k < items.len() && ci_in(#[trigger] items[k], repo) ==> items[k].updated_at is None)
            ==> newest_of(items)[repo].len() == 0,
{
    newest_is_the_latest_update(items, repo);
    if newest_of(items).dom().contains(repo) {
        let k = choose|k: int|
            0 <= k < items.len() && is_ci_of(#[trigger] items[k], repo) && or_empty(
                items[k].updated_at,
            ) == newest_of(items)[repo];
        assert(ci_in(items[k], repo));
    }
    if exists|k: int| 0 <= k < items.len() && ci_in(#[trigger] items[k], repo) {
        let k = choose|k: int| 0 <= k < items.len() && ci_in(#[trigger] items[k], repo);
        assert(is_ci_of(items[k], repo));
    }
}

/// Of two caches, what only one of them keeps stays, and of what both keep the list that
/// was read later.
pub proof fn merging_keeps_what_was_read_last(
    ours: Map<(Seq<char>, Seq<char>), CachedRunsView>,
    theirs: Map<(Seq<char>, Seq<char>), CachedRunsView>,
    key: (Seq<char>, Seq<char>),
)
    ensures
        merged(ours, theirs).dom().contains(key) <==> ours.dom().contains(key)
            || theirs.dom().contains(key),
        ours.dom().contains(key) && !theirs.dom().contains(key) ==> merged(ours, theirs)[key]
            == ours[key],
        !ours.dom().contains(key) && theirs.dom().contains(key) ==> merged(ours, theirs)[key]
            == theirs[key],
        ours.dom().contains(key) && theirs.dom().contains(key) ==> {
            let stays = merged(ours, theirs)[key];
            &&& stays == ours[key] || stays == theirs[key]
            &&& no_later(ours[key].fetched_at, stays.fetched_at)
            &&& no_later(theirs[key].fetched_at, stays.fetched_at)
        },
{
}

/// A CI notification whose repository's runs are known is linked to the page that its
/// title and time lead to, and keeps its link where they lead to none.
pub proof fn the_found_page_becomes_the_link(
    items: Seq<NotificationView>,
    runs: Map<Seq<char>, Seq<JsonView>>,
    i: int,
    repo: Seq<char>,
    s: Seq<char>,
)
    requires
        0 <= i < items.len(),
        ci_in(items[i], repo),
        runs.dom().contains(repo),
        items[i].updated_at == Some(s) || (items[i].updated_at is None && s.len() == 0),
    ensures
        linked(items, runs).len() == items.len(),
        match run_page(runs[repo], items[i].title, s) {
            Some(page) => linked(items, runs)[i] == (NotificationView {
                url: Some(page),
                ..items[i]
            }),
            None => linked(items, runs)[i] == items[i],
        },
{
    if items[i].updated_at is None {
        assert(s =~= Seq::<char>::empty());
    }
}

}
