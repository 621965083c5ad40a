//! Notifications, the runs they are about, and the run lists kept for them.
use laba_core::backend::GithubBackend;
use laba_core::clock::{parse_ts, Instant};
use laba_core::entities::{CiOutcome, NotifKind, Notification};
use laba_core::error::Error;
use laba_core::json::{parse_values, Json};
use laba_core::map::TextMap;
use laba_core::notifications::{
    check_suite_outcome, ci_outcome_from_title, notif_kind_from_subject_type,
    notification_html_url, parse_notifications, unread_count,
};
use laba_core::runner::GhRunner;
use laba_core::runs::{
    check_suite_branch, check_suite_workflow, closest_run, match_run_url, run_distances,
    GITHUB_MAX_PER_PAGE,
};
use laba_core::snapshots::{
    link_runs, linked_inbox, newest_updates, refreshed_runs, runs_cache_is_fresh, serve_from_cache,
    take_answers, CachedRuns, RunsCache, RUNS_CACHE_TTL_SECS,
};
use std::cell::RefCell;

fn list(text: &str) -> Vec<Json> {
    parse_values(text.as_bytes()).unwrap()
}

fn value(text: &str) -> Json {
    list(&format!("[{}]", text)).pop().unwrap()
}

fn at(s: &str) -> Instant {
    parse_ts(s).unwrap()
}

fn ci(repo: &str, title: &str, updated: &str) -> String {
    format!(
        r#"{{"subject": {{"title": "{}", "type": "CheckSuite"}},
            "repository": {{"full_name": "{}"}}, "updated_at": "{}"}}"#,
        title, repo, updated
    )
}

fn inbox(items: &[String]) -> Vec<Notification> {
    parse_notifications(format!("[{}]", items.join(",")).as_bytes()).unwrap()
}

fn run(name: &str, branch: &str, updated: &str, url: &str) -> String {
    format!(
        r#"{{"name": "{}", "head_branch": "{}", "updated_at": "{}", "html_url": "{}"}}"#,
        name, branch, updated, url
    )
}

#[test]
fn outcomes_ignore_case_and_failure_comes_first() {
    assert_eq!(check_suite_outcome("ALL CHECKS PASSED"), "success");
    assert_eq!(check_suite_outcome("Succeeded after it FAILED"), "failure");
    assert_eq!(ci_outcome_from_title("run succeeded"), CiOutcome::Success);
    assert_eq!(ci_outcome_from_title("run failed"), CiOutcome::Failure);
    assert_eq!(ci_outcome_from_title("pass"), CiOutcome::Neutral);
}

#[test]
fn subject_types_are_matched_exactly() {
    assert_eq!(notif_kind_from_subject_type(Some("Issue")), NotifKind::Issue);
    assert_eq!(notif_kind_from_subject_type(Some("PullRequest")), NotifKind::PullRequest);
    assert_eq!(notif_kind_from_subject_type(Some("CheckSuite")), NotifKind::CheckSuite);
    assert_eq!(
        notif_kind_from_subject_type(Some("issue")),
        NotifKind::Other("issue".to_string())
    );
    assert_eq!(notif_kind_from_subject_type(None), NotifKind::Other(String::new()));
}

#[test]
fn links_need_a_type_a_repository_and_a_number() {
    let link = |subject: &str, repo: &str| {
        notification_html_url(&value(&format!(
            r#"{{"subject": {}, "repository": {}}}"#,
            subject, repo
        )))
    };
    let repo = r#"{"html_url": "https://ghe.example/a/b//", "full_name": "x/y"}"#;
    assert_eq!(
        link(r#"{"type": "Issue", "url": "7"}"#, repo).as_deref(),
        Some("https://ghe.example/a/b/issues/7")
    );
    assert_eq!(
        link(r#"{"type": "CheckSuite"}"#, repo).as_deref(),
        Some("https://ghe.example/a/b/actions")
    );
    assert_eq!(link(r#"{"type": "Issue", "url": "r/7/"}"#, repo), None);
    assert_eq!(link(r#"{"type": "Issue", "url": "r/7a"}"#, repo), None);
    assert_eq!(link(r#"{"type": "Issue"}"#, repo), None);
    assert_eq!(link("{}", repo), None);
    assert_eq!(link(r#"{"type": "CheckSuite"}"#, "{}"), None);
    assert_eq!(link("null", repo), None);
    assert_eq!(notification_html_url(&value(r#"{"subject": {"type": "CheckSuite"}}"#)), None);
    assert_eq!(notification_html_url(&value("[]")), None);
}

#[test]
fn only_a_stated_false_counts_as_read() {
    let items = parse_notifications(
        br#"[{"unread": false}, {"unread": true}, {"unread": null}, {"unread": "false"}, {}]"#,
    )
    .unwrap();
    let read: Vec<bool> = items.iter().map(|n| n.read).collect();
    assert_eq!(read, vec![true, false, false, false, false]);
    assert_eq!(unread_count(&items), 4);
    assert_eq!(unread_count(&Vec::new()), 0);
    assert!(parse_notifications(b"{}").is_err());
}

#[test]
fn titles_give_workflow_and_branch() {
    assert_eq!(check_suite_workflow(" Build  workflow run failed"), Some("Build"));
    assert_eq!(check_suite_workflow(" workflow run failed"), None);
    assert_eq!(check_suite_workflow("a workflow run b workflow run"), Some("a"));
    assert_eq!(check_suite_branch("x for main branch for y"), Some("main".to_string()));
    assert_eq!(check_suite_branch("x for  branch"), Some("branch".to_string()));
    assert_eq!(check_suite_branch("x for   "), None);
    assert_eq!(check_suite_branch("x for main"), Some("main".to_string()));
    // A "for" in the workflow's name does not hide the branch.
    let title = "Tests for API workflow run failed for main branch";
    assert_eq!(check_suite_workflow(title), Some("Tests for API"));
    assert_eq!(check_suite_branch(title), Some("main".to_string()));
    let runs = list(&format!(
        "[{}]",
        run("Tests for API", "main", "2026-07-15T12:00:00Z", "page")
    ));
    assert_eq!(
        match_run_url(&runs, title, "2026-07-15T12:00:00Z").as_deref(),
        Some("page")
    );
    assert_eq!(
        check_suite_branch("a for b for feat/x branch \n"),
        Some("feat/x".to_string())
    );
    assert_eq!(check_suite_branch("x for for branch"), Some("for".to_string()));
    assert_eq!(check_suite_branch("x for y for  branch"), Some("y".to_string()));
    assert_eq!(check_suite_branch("x for branch"), Some("branch".to_string()));
    assert_eq!(check_suite_branch("branch"), None);
    assert_eq!(GITHUB_MAX_PER_PAGE, 100);
}

#[test]
fn the_first_of_equally_near_runs_is_chosen() {
    let runs = list(&format!(
        "[{},{},{},{}]",
        run("CI", "m", "2026-07-15T12:00:10Z", "late"),
        run("CI", "m", "2026-07-15T11:59:55Z", "first"),
        run("CI", "m", "2026-07-15T12:00:05Z", "second"),
        run("CI", "n", "2026-07-15T12:00:00Z", "elsewhere"),
    ));
    let noon = "2026-07-15T12:00:00Z";
    assert_eq!(
        run_distances(&runs, Some(at(noon))),
        vec![10_000_000_000, 5_000_000_000, 5_000_000_000, 0]
    );
    assert_eq!(run_distances(&runs, None), vec![i128::MAX; 4]);
    assert_eq!(closest_run(&runs, "CI", Some("m"), &vec![10, 5, 5, 0]), Some(1));
    assert_eq!(closest_run(&runs, "CI", None, &vec![10, 5, 5, 0]), Some(3));
    assert_eq!(closest_run(&runs, "CD", None, &vec![10, 5, 5, 0]), None);
    let page = |title: &str, updated: &str| match_run_url(&runs, title, updated);
    assert_eq!(page("CI workflow run failed for m branch", noon).as_deref(), Some("first"));
    // Without a branch in the title, every branch counts.
    assert_eq!(page("CI workflow run failed", noon).as_deref(), Some("elsewhere"));
    // Without a usable time, the first run of the workflow and branch is taken.
    assert_eq!(page("CI workflow run failed for m branch", "?").as_deref(), Some("late"));
    assert_eq!(page("CI failed for m branch", noon), None);
}

#[test]
fn parts_of_a_second_decide_between_runs() {
    let runs = list(&format!(
        "[{},{}]",
        run("CI", "feat", "2026-07-15T11:21:18.900Z", "A"),
        run("CI", "feat", "2026-07-15T11:21:18.100Z", "B"),
    ));
    let page = |updated: &str| {
        match_run_url(&runs, "CI workflow run failed for feat branch", updated)
    };
    assert_eq!(page("2026-07-15T11:21:18Z").as_deref(), Some("B"));
    assert_eq!(page("2026-07-15T11:21:19Z").as_deref(), Some("A"));
    assert_eq!(page("2026-07-15T11:21:18.5Z").as_deref(), Some("A"));
    assert_eq!(page("2026-07-15T11:21:18.499999999Z").as_deref(), Some("B"));
}

#[test]
fn a_known_time_is_nearer_than_an_unknown_one() {
    let runs = list(&format!(
        "[{},{}]",
        run("CI", "m", "?", "unknown"),
        run("CI", "m", "0001-01-01T00:00:00Z", "ancient"),
    ));
    assert_eq!(
        match_run_url(&runs, "CI workflow run", "9999-12-31T23:59:59Z").as_deref(),
        Some("ancient")
    );
}

#[test]
fn a_chosen_run_without_a_page_gives_no_link() {
    let runs = list(
        r#"[{"name": "CI", "updated_at": "2026-07-15T12:00:00Z"},
            {"name": "CI", "updated_at": "2026-07-14T12:00:00Z", "html_url": "far"}]"#,
    );
    assert_eq!(
        match_run_url(&runs, "CI workflow run failed", "2026-07-15T12:00:00Z"),
        None
    );
}

#[test]
fn the_lifetime_ends_at_ten_minutes() {
    let fetched = at("2026-07-15T12:00:00Z");
    let updated = Some("2026-07-15T11:00:00Z");
    assert_eq!(RUNS_CACHE_TTL_SECS, 600);
    assert!(runs_cache_is_fresh(fetched, updated, at("2026-07-15T12:09:59.999Z")));
    assert!(!runs_cache_is_fresh(fetched, updated, at("2026-07-15T12:10:00Z")));
    // A clock that was set back makes nothing stale.
    assert!(runs_cache_is_fresh(fetched, updated, at("2026-07-15T11:00:00Z")));
    // The offset of the notification's time counts.
    assert!(runs_cache_is_fresh(fetched, Some("2026-07-15T14:00:00+02:00"), fetched));
    assert!(!runs_cache_is_fresh(fetched, Some("2026-07-15T12:00:00-00:01"), fetched));
    assert!(!runs_cache_is_fresh(fetched, Some(""), fetched));
}

#[test]
fn the_newest_update_counts_per_repository() {
    let mut items = inbox(&[
        ci("b/b", "t", "2026-07-02T00:00:00Z"),
        ci("a/a", "t", "2026-07-01T00:00:00Z"),
        ci("b/b", "t", "2026-07-03T00:00:00Z"),
        ci("b/b", "t", "2026-07-01T00:00:00Z"),
    ]);
    items.extend(
        parse_notifications(
            br#"[{"subject": {"type": "Issue"}, "repository": {"full_name": "c/c"}},
                 {"subject": {"type": "CheckSuite"}},
                 {"subject": {"type": "CheckSuite"}, "repository": {"full_name": "d/d"}}]"#,
        )
        .unwrap(),
    );
    let newest = newest_updates(&items);
    let listed: Vec<(&str, &str)> = (0..newest.len())
        .map(|i| (newest.key_at(i), newest.value_at(i).as_str()))
        .collect();
    assert_eq!(
        listed,
        vec![
            ("a/a", "2026-07-01T00:00:00Z"),
            ("b/b", "2026-07-03T00:00:00Z"),
            ("d/d", ""),
        ]
    );
}

#[test]
fn the_newest_update_is_the_latest_instant() {
    let of = |times: &[&str]| {
        let items: Vec<String> = times.iter().map(|t| ci("a/a", "t", t)).collect();
        newest_updates(&inbox(&items)).value_at(0).clone()
    };
    let east = "2026-07-15T12:00:00+02:00";
    let utc = "2026-07-15T11:00:00Z";
    assert_eq!(of(&[east, utc]), utc);
    assert_eq!(of(&[utc, east]), utc);
    // A time that cannot be read forces a refetch, so it is kept over the others.
    assert_eq!(of(&[utc, "?"]), "?");
    assert_eq!(of(&["?", utc]), "?");
    // One without a time yields to every other.
    assert_eq!(of(&[utc, ""]), utc);
    assert_eq!(of(&["", utc]), utc);
    assert_eq!(of(&["", "?"]), "?");
    assert_eq!(of(&["?", ""]), "?");
    assert_eq!(of(&["", ""]), "");
    let undated = r#"{"subject": {"type": "CheckSuite"}, "repository": {"full_name": "a/a"}}"#;
    let items = inbox(&[undated.to_string(), ci("a/a", "t", utc), undated.to_string()]);
    assert_eq!(newest_updates(&items).value_at(0), utc);
    // A list read in between covers the one and not both.
    let between = at("2026-07-15T10:30:00Z");
    assert!(runs_cache_is_fresh(between, Some(east), between));
    assert!(!runs_cache_is_fresh(between, Some(&of(&[east, utc])), between));
}

#[test]
fn merged_caches_keep_what_was_read_last() {
    let early = at("2026-07-15T12:00:00Z");
    let late = at("2026-07-15T12:05:00Z");
    let put = |cache: &mut RunsCache, repo: &str, fetched_at: Instant, runs: &str| {
        cache.insert("acct", repo, CachedRuns { fetched_at, runs: list(runs) });
    };
    let mut ours = RunsCache::new();
    put(&mut ours, "a/a", early, "[1]");
    put(&mut ours, "b/b", late, "[1]");
    put(&mut ours, "c/c", early, "[1]");
    let mut theirs = ours.copy();
    put(&mut theirs, "a/a", late, "[1, 2]");
    put(&mut theirs, "b/b", early, "[1, 2]");
    put(&mut theirs, "d/d", early, "[1, 2]");
    ours.merge(theirs);
    let kept = |repo: &str| ours.get("acct", repo).map(|c| c.runs.len());
    assert_eq!(kept("a/a"), Some(2));
    assert_eq!(kept("b/b"), Some(1));
    assert_eq!(kept("c/c"), Some(1));
    assert_eq!(kept("d/d"), Some(2));
    assert_eq!(kept("e/e"), None);
}

#[test]
fn runs_are_asked_for_only_where_the_cache_lacks_them() {
    let now = at("2026-07-15T12:00:00Z");
    let wanted = newest(&[("a/a", "2026-07-15T11:00:00Z")]);
    let mut cache = RunsCache::new();
    let first = refreshed_runs(&wanted, &mut cache, Some("acct"), now, |calls| {
        assert_eq!(calls.len(), 1);
        assert_eq!(calls[0][1], "repos/a/a/actions/runs?per_page=100");
        vec![Ok(b"[7]".to_vec())]
    });
    assert_eq!(first.get("a/a").map(Vec::len), Some(1));
    let second = refreshed_runs(&wanted, &mut cache, Some("acct"), now, |_| {
        panic!("nothing to ask for")
    });
    assert_eq!(second.get("a/a").map(Vec::len), Some(1));
}

#[test]
fn runs_are_read_only_for_ci_notifications() {
    let mut cache = RunsCache::new();
    let noon = "2026-07-15T12:00:00Z";
    let plain = br#"[{"subject": {"type": "Issue"}, "repository": {"full_name": "a/a"}},
                     {"subject": {"type": "CheckSuite"}}]"#;
    let items = parse_notifications(plain).unwrap();
    let before = format!("{:?}", items);
    let after = linked_inbox(items, &mut cache, |_, _| panic!("nothing to read"));
    assert_eq!(format!("{:?}", after), before);
    let items = inbox(&[ci("a/a", "CI workflow run failed for m branch", noon)]);
    let linked = linked_inbox(items, &mut cache, |wanted, _| {
        assert_eq!(wanted.len(), 1);
        assert_eq!((wanted.key_at(0), wanted.value_at(0).as_str()), ("a/a", noon));
        let mut runs = TextMap::new();
        runs.insert("a/a".to_string(), list(&format!("[{}]", run("CI", "m", noon, "page"))));
        runs
    });
    assert_eq!(linked[0].url.as_deref(), Some("page"));
}

fn newest(entries: &[(&str, &str)]) -> TextMap<String> {
    let mut m = TextMap::new();
    for (k, v) in entries {
        m.insert(k.to_string(), v.to_string());
    }
    m
}

#[test]
fn repositories_are_served_or_asked_for_by_account() {
    let fetched = at("2026-07-15T12:00:00Z");
    let mut cache = RunsCache::new();
    for repo in ["a/a", "b/b"] {
        cache.insert("acct", repo, CachedRuns { fetched_at: fetched, runs: list("[1]") });
    }
    let wanted = newest(&[
        ("a/a", "2026-07-15T11:00:00Z"),
        ("b/b", "2026-07-15T12:00:01Z"),
        ("c/c", "2026-07-15T11:00:00Z"),
    ]);
    let (known, missing) = serve_from_cache(&wanted, &cache, Some("acct"), fetched);
    assert_eq!(known.len(), 1);
    assert_eq!(known.key_at(0), "a/a");
    assert_eq!(known.value_at(0).len(), 1);
    assert_eq!(missing, vec!["b/b", "c/c"]);
    for account in [None, Some("other")] {
        let (known, missing) = serve_from_cache(&wanted, &cache, account, fetched);
        assert_eq!(known.len(), 0);
        assert_eq!(missing, vec!["a/a", "b/b", "c/c"]);
    }
}

#[test]
fn read_runs_are_handed_on_and_kept_for_the_account() {
    let now = at("2026-07-15T12:00:00Z");
    let repos: Vec<String> = ["a/a", "b/b", "c/c"].iter().map(|r| r.to_string()).collect();
    let answers: Vec<Result<Vec<u8>, Error>> = vec![
        Ok(b"[1, 2]".to_vec()),
        Ok(b"{}".to_vec()),
        Err(Error::Api("no".to_string())),
    ];
    let mut cache = RunsCache::new();
    let out = take_answers(TextMap::new(), &mut cache, Some("acct"), now, &repos, &answers);
    assert_eq!(out.len(), 1);
    assert_eq!(out.get("a/a").map(Vec::len), Some(2));
    let kept = cache.get("acct", "a/a").unwrap();
    assert_eq!(kept.runs.len(), 2);
    assert_eq!(kept.fetched_at.seconds_since(&now), 0);
    assert!(cache.get("acct", "b/b").is_none());
    assert!(cache.get("a/a", "acct").is_none());
    // Without an account the list is handed on and not kept.
    let mut cache = RunsCache::new();
    let out = take_answers(TextMap::new(), &mut cache, None, now, &repos, &answers);
    assert_eq!(out.len(), 1);
    assert!(cache.get("acct", "a/a").is_none());
}

#[test]
fn linking_changes_only_ci_links_and_is_idempotent() {
    let noon = "2026-07-15T12:00:00Z";
    let mut items = inbox(&[
        ci("a/a", "CI workflow run failed for m branch", noon),
        ci("a/a", "CD workflow run failed for m branch", noon),
        ci("b/b", "CI workflow run failed for m branch", noon),
    ]);
    items.extend(
        parse_notifications(
            br#"[{"subject": {"type": "Issue", "title": "CI workflow run", "url": "1"},
                  "repository": {"full_name": "a/a"}, "unread": false}]"#,
        )
        .unwrap(),
    );
    let mut runs: TextMap<Vec<Json>> = TextMap::new();
    runs.insert(
        "a/a".to_string(),
        list(&format!("[{}]", run("CI", "m", noon, "page"))),
    );
    let unread = unread_count(&items);
    let once = link_runs(items, &runs);
    let links: Vec<Option<&str>> = once.iter().map(|n| n.url.as_deref()).collect();
    assert_eq!(
        links,
        vec![
            Some("page"),
            Some("https://github.com/a/a/actions"),
            Some("https://github.com/b/b/actions"),
            Some("https://github.com/a/a/issues/1"),
        ]
    );
    assert_eq!(unread_count(&once), unread);
    let before = format!("{:?}", once);
    assert_eq!(format!("{:?}", link_runs(once, &runs)), before);
}

/// Runner with an account that answers every batch call with one run, and records
/// the calls.
struct RunsGh {
    asked: RefCell<Vec<String>>,
}

impl GhRunner for RunsGh {
    fn run(&self, args: &[&str]) -> Result<Vec<u8>, Error> {
        self.asked.borrow_mut().push(args[1].to_string());
        Ok(b"[{\"name\": \"CI\"}]".to_vec())
    }

    fn cache_key(&self) -> Option<&str> {
        Some("acct")
    }
}

#[test]
fn a_later_poll_asks_only_for_what_is_not_covered() {
    let gh = RunsGh { asked: RefCell::new(Vec::new()) };
    let backend = GithubBackend::new(&gh);
    let mut cache = RunsCache::new();
    let wanted = newest(&[
        ("a/a", "2026-07-15T11:00:00Z"),
        ("b/b", "2026-07-15T12:05:00Z"),
    ]);
    let first = backend.recent_runs_at(&wanted, &mut cache, at("2026-07-15T12:00:00Z"));
    assert_eq!(first.len(), 2);
    assert_eq!(
        gh.asked.borrow().as_slice(),
        &[
            "repos/a/a/actions/runs?per_page=100",
            "repos/b/b/actions/runs?per_page=100"
        ]
    );
    let second = backend.recent_runs_at(&wanted, &mut cache, at("2026-07-15T12:06:00Z"));
    assert_eq!(second.len(), 2);
    assert_eq!(gh.asked.borrow().len(), 3);
    let third = backend.recent_runs_at(&wanted, &mut cache, at("2026-07-15T12:09:00Z"));
    assert_eq!(third.len(), 2);
    assert_eq!(gh.asked.borrow().len(), 3);
    // Ten minutes after the first read, that list is read anew.
    backend.recent_runs_at(&wanted, &mut cache, at("2026-07-15T12:10:00Z"));
    assert_eq!(gh.asked.borrow().len(), 4);
    assert_eq!(gh.asked.borrow()[3], "repos/a/a/actions/runs?per_page=100");
}
