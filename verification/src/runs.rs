//! Workflow runs: asking for a repository's runs, and finding the one that a CI
//! notification is about.
use crate::clock::{instant_of, instant_view, nanos_from, parse_ts, Instant};
use crate::json::{decoded, parse_values, Json, JsonView};
use crate::text::{
    after_mark, before_mark, between_marks, decimal, decimal_text, ends_with, find_from, has_end,
    last_piece, same_text, second_piece, strip_end, trim, trimmed, without_suffix,
};
use vstd::prelude::*;
use vstd::string::*;

verus! {

// ----------------------------------------------------------------------------
// What a check-suite title says
// ----------------------------------------------------------------------------

pub open spec fn unless_empty(s: Seq<char>) -> Option<Seq<char>> {
    if s.len() == 0 {
        None
    } else {
        Some(s)
    }
}

/// The name in front of "workflow run".
pub open spec fn workflow_of(title: Seq<char>) -> Option<Seq<char>> {
    match find_from(title, " workflow run"@, 0) {
        Some(i) => unless_empty(trimmed(title.take(i))),
        None => None,
    }
}

/// What stands between the last "for" and the word "branch" at the end of a title.
pub open spec fn closing_branch(title: Seq<char>) -> Option<Seq<char>> {
    if ends_with(trimmed(title), " branch"@) {
        match last_piece(without_suffix(trimmed(title), " branch"@), " for "@) {
            Some(piece) => unless_empty(trimmed(piece)),
            None => None,
        }
    } else {
        None
    }
}

/// What stands behind the first "for", up to the next one, without the word
/// "branch" at its end.
pub open spec fn opening_branch(title: Seq<char>) -> Option<Seq<char>> {
    match second_piece(title, " for "@) {
        Some(piece) => unless_empty(trimmed(without_suffix(trimmed(piece), " branch"@))),
        None => None,
    }
}

/// The branch that a title names: the one that it closes with, where it closes with
/// one.
pub open spec fn branch_of(title: Seq<char>) -> Option<Seq<char>> {
    match closing_branch(title) {
        Some(branch) => Some(branch),
        None => opening_branch(title),
    }
}

/// Workflow name from a CheckSuite title, phrased "<workflow> workflow run
/// <status> for <branch> branch". Returns the leading workflow name, or `None`
/// when the title lacks the "workflow run" marker.
pub fn check_suite_workflow(title: &str) -> (r: Option<&str>)
    ensures
        r.deep_view() == workflow_of(title@),
{
    match before_mark(title, " workflow run") {
        Some(head) => nonempty(trim(head)),
        None => None,
    }
}

fn nonempty(s: &str) -> (r: Option<&str>)
    ensures
        r.deep_view() == unless_empty(s@),
{
    if s.is_empty() {
        None
    } else {
        Some(s)
    }
}

fn branch_at_close(title: &str) -> (r: Option<&str>)
    ensures
        r.deep_view() == closing_branch(title@),
{
    let all = trim(title);
    if has_end(all, " branch") {
        match after_mark(strip_end(all, " branch"), " for ") {
            Some(piece) => nonempty(trim(piece)),
            None => None,
        }
    } else {
        None
    }
}

fn branch_at_open(title: &str) -> (r: Option<&str>)
    ensures
        r.deep_view() == opening_branch(title@),
{
    match between_marks(title, " for ") {
        Some(piece) => nonempty(trim(strip_end(trim(piece), " branch"))),
        None => None,
    }
}

/// Branch from a CheckSuite title (the token between "for" and the trailing
/// "branch"). The workflow's own name may hold a "for" too, so the last one counts;
/// a title without such a token is read from its first "for". Returns the branch
/// (`main`, `feature/x`, ...), or `None`.
pub fn check_suite_branch(title: &str) -> (r: Option<String>)
    ensures
        r.deep_view() == branch_of(title@),
{
    let found: Option<&str> = match branch_at_close(title) {
        Some(branch) => Some(branch),
        None => branch_at_open(title),
    };
    match found {
        Some(branch) => Some(branch.to_owned()),
        None => None,
    }
}

// ----------------------------------------------------------------------------
// The run a title refers to
// ----------------------------------------------------------------------------

/// Whether a run is of that workflow and, where a branch is given, on it.
pub open spec fn is_run_of(run: JsonView, workflow: Seq<char>, branch: Option<Seq<char>>) -> bool {
    &&& run.text_at("name"@) == Some(workflow)
    &&& branch is Some ==> run.text_at("head_branch"@) == branch
}

/// How far, in nanoseconds, a run's last update is from `target`; farther than any
/// two points in time are apart when either is not known.
pub open spec fn distance_of(run: JsonView, target: Option<(int, int)>) -> int {
    let updated = match run.text_at("updated_at"@) {
        Some(s) => instant_of(s),
        None => None,
    };
    match (target, updated) {
        (Some(t), Some(u)) => {
            let d = nanos_from(t, u);
            if d < 0 {
                -d
            } else {
                d
            }
        },
        _ => i128::MAX as int,
    }
}

pub open spec fn distances_of(runs: Seq<JsonView>, target: Option<(int, int)>) -> Seq<int> {
    Seq::new(runs.len(), |i: int| distance_of(runs[i], target))
}

/// Of the first `n` runs, the one of that workflow and branch with the smallest
/// distance; the first of several that are equally near.
pub open spec fn nearest(
    runs: Seq<JsonView>,
    workflow: Seq<char>,
    branch: Option<Seq<char>>,
    distances: Seq<int>,
    n: int,
) -> Option<int>
    decreases n,
{
    if n <= 0 {
        None
    } else {
        let best = nearest(runs, workflow, branch, distances, n - 1);
        if is_run_of(runs[n - 1], workflow, branch) && (best matches Some(b) ==> distances[n - 1]
            < distances[b]) {
            Some(n - 1)
        } else {
            best
        }
    }
}

/// The page of the run that a title refers to, for a notification updated at
/// `updated`.
pub open spec fn run_page(
    runs: Seq<JsonView>,
    title: Seq<char>,
    updated: Seq<char>,
) -> Option<Seq<char>> {
    match workflow_of(title) {
        Some(workflow) => {
            let distances = distances_of(runs, instant_of(updated));
            match nearest(runs, workflow, branch_of(title), distances, runs.len() as int) {
                Some(i) => runs[i].text_at("html_url"@),
                None => None,
            }
        },
        None => None,
    }
}

fn run_matches(run: &Json, workflow: &str, branch: Option<&str>) -> (r: bool)
    ensures
        r == is_run_of(run.deep_view(), workflow@, branch.deep_view()),
{
    let named: bool = match run.str_at("name") {
        Some(name) => same_text(name, workflow),
        None => false,
    };
    let on_branch: bool = match branch {
        Some(b) => match run.str_at("head_branch") {
            Some(head) => same_text(head, b),
            None => false,
        },
        None => true,
    };
    named && on_branch
}

/// How far each run's last update is from `target`.
pub fn run_distances(runs: &[Json], target: Option<Instant>) -> (r: Vec<i128>)
    ensures
        r@.len() == runs@.len(),
        r@.map_values(|d: i128| d as int) == distances_of(runs.deep_view(), instant_view(target)),
{
    let mut out: Vec<i128> = Vec::new();
    let mut i: usize = 0;
    while i < runs.len()
        invariant
            i <= runs@.len(),
            out@.len() == i,
            forall|k: int|
                0 <= k < i ==> #[trigger] out@[k] == distance_of(
                    runs@[k].deep_view(),
                    instant_view(target),
                ),
        decreases runs@.len() - i,
    {
        let updated: Option<Instant> = match runs[i].str_at("updated_at") {
            Some(s) => parse_ts(s),
            None => None,
        };
        let d: i128 = match (target, updated) {
            (Some(t), Some(u)) => {
                let d: i128 = t.nanos_since(&u);
                if d < 0 {
                    -d
                } else {
                    d
                }
            },
            _ => i128::MAX,
        };
        out.push(d);
        i += 1;
    }
    assert(out@.map_values(|d: i128| d as int) =~= distances_of(
        runs.deep_view(),
        instant_view(target),
    ));
    out
}

/// The run of that workflow and branch with the smallest distance, the first of
/// several that are equally near.
pub fn closest_run(
    runs: &[Json],
    workflow: &str,
    branch: Option<&str>,
    distances: &[i128],
) -> (r: Option<usize>)
    requires
        distances@.len() == runs@.len(),
    ensures
        match r {
            Some(i) => i < runs@.len() && nearest(
                runs.deep_view(),
                workflow@,
                branch.deep_view(),
                distances@.map_values(|d: i128| d as int),
                runs@.len() as int,
            ) == Some(i as int),
            None => nearest(
                runs.deep_view(),
                workflow@,
                branch.deep_view(),
                distances@.map_values(|d: i128| d as int),
                runs@.len() as int,
            ) is None,
        },
{
    let ghost ds = distances@.map_values(|d: i128| d as int);
    let ghost shown = runs.deep_view();
    let mut best: Option<usize> = None;
    let mut i: usize = 0;
    while i < runs.len()
        invariant
            ds == distances@.map_values(|d: i128| d as int),
            shown == runs.deep_view(),
            distances@.len() == runs@.len(),
            i <= runs@.len(),
            match best {
                Some(b) => b < i && nearest(shown, workflow@, branch.deep_view(), ds, i as int)
                    == Some(b as int),
                None => nearest(shown, workflow@, branch.deep_view(), ds, i as int) is None,
            },
        decreases runs@.len() - i,
    {
        assert(shown[i as int] == runs@[i as int].deep_view());
        if run_matches(&runs[i], workflow, branch) {
            let nearer: bool = match best {
                Some(b) => distances[i] < distances[b],
                None => true,
            };
            if nearer {
                best = Some(i);
            }
        }
        i += 1;
    }
    best
}

/// Browser URL of the workflow run a CheckSuite notification refers to. Matches
/// `runs` (a repository's workflow runs) by the workflow name and branch parsed
/// from `title`, then picks the run whose `updated_at` is closest to the
/// notification's `notif_updated`. Returns `None` when nothing matches.
pub fn match_run_url(runs: &[Json], title: &str, notif_updated: &str) -> (r: Option<String>)
    ensures
        r.deep_view() == run_page(runs.deep_view(), title@, notif_updated@),
{
    let workflow: &str = match check_suite_workflow(title) {
        Some(workflow) => workflow,
        None => return None,
    };
    let branch: Option<String> = check_suite_branch(title);
    let on: Option<&str> = match &branch {
        Some(b) => Some(b.as_str()),
        None => None,
    };
    assert(on.deep_view() == branch_of(title@));
    let distances = run_distances(runs, parse_ts(notif_updated));
    match closest_run(runs, workflow, on, distances.as_slice()) {
        Some(i) => runs[i].string_at("html_url"),
        None => None,
    }
}

// ----------------------------------------------------------------------------
// Asking for runs
// ----------------------------------------------------------------------------

/// GitHub's REST API caps `per_page` at 100; request the maximum to keep the
/// number of round-trips down.
pub const GITHUB_MAX_PER_PAGE: u32 = 100;

/// Projection applied to the Actions API response, keeping only the four fields
/// [`match_run_url`] reads. A hundred full run objects are on the order of a
/// megabyte per repository; the four fields are a few kilobytes.
pub const RUNS_JQ: &'static str = "[.workflow_runs[] | {name, head_branch, updated_at, html_url}]";

pub open spec fn runs_words(repo: Seq<char>) -> Seq<Seq<char>> {
    seq![
        "api"@,
        "repos/"@ + repo + "/actions/runs?per_page="@ + decimal(GITHUB_MAX_PER_PAGE as int),
        "--jq"@,
        RUNS_JQ@,
    ]
}

/// Arguments reading one repository's recent workflow runs, already projected
/// down to the fields the matcher needs.
pub fn runs_args(repo: &str) -> (args: Vec<String>)
    ensures
        args.deep_view() == runs_words(repo@),
{
    let mut path: String = "repos/".to_owned();
    path.append(repo);
    path.append("/actions/runs?per_page=");
    let page = decimal_text(GITHUB_MAX_PER_PAGE as i64);
    path.append(page.as_str());
    let mut args: Vec<String> = Vec::new();
    args.push("api".to_owned());
    args.push(path);
    args.push("--jq".to_owned());
    args.push(RUNS_JQ.to_owned());
    assert(args.deep_view() =~= runs_words(repo@));
    args
}

/// The run list that an output holds, if it holds one.
pub open spec fn runs_in(raw: Seq<u8>) -> Option<Seq<JsonView>> {
    match decoded(raw) {
        Ok(runs) => Some(runs),
        Err(_) => None,
    }
}

/// Parse the projected run list, or `None` when the output is not the expected
/// array (kept non-fatal: the notification keeps its Actions-page link).
pub fn parse_runs(raw: &[u8]) -> (r: Option<Vec<Json>>)
    ensures
        r.deep_view() == runs_in(raw@),
{
    match parse_values(raw) {
        Ok(runs) => Some(runs),
        Err(_) => None,
    }
}

}
