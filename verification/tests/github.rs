//! The backend over fake runners, and the mappings from `gh` output.
use laba_core::backend::{GithubBackend, LoginCache};
use laba_core::clock::parse_ts;
use laba_core::entities;
use laba_core::error::Error;
use laba_core::json::{parse_values, Json};
use laba_core::notifications::{check_suite_outcome, notification_from_gh};
use laba_core::runner::{gh_account, gh_status, GhRunner, GhStatus};
use laba_core::runs::{check_suite_branch, check_suite_workflow, match_run_url, runs_args};
use laba_core::snapshots::{runs_cache_is_fresh, RunsCache};
use laba_core::tasks::{dedup_by_id, task_from_gh, TaskKind};
use std::cell::RefCell;
use std::rc::Rc;
use std::sync::Mutex;

fn list(text: &str) -> Vec<Json> {
    parse_values(text.as_bytes()).unwrap()
}

fn value(text: &str) -> Json {
    list(&format!("[{}]", text)).pop().unwrap()
}

/// Fake runner returning canned fixtures keyed by the leading args.
struct FakeGh {
    issues: Vec<u8>,
    prs: Vec<u8>,
    notifications: Vec<u8>,
}

impl FakeGh {
    fn new(issues: &str, prs: &str, notifications: &str) -> Self {
        FakeGh {
            issues: issues.as_bytes().to_vec(),
            prs: prs.as_bytes().to_vec(),
            notifications: notifications.as_bytes().to_vec(),
        }
    }
}

impl GhRunner for FakeGh {
    fn run(&self, args: &[&str]) -> Result<Vec<u8>, Error> {
        match (args.first().copied(), args.get(1).copied()) {
            (Some("search"), Some("issues")) => Ok(self.issues.clone()),
            (Some("search"), Some("prs")) => Ok(self.prs.clone()),
            // `gh api user` (login lookup) vs `gh api notifications[?all=true]`.
            (Some("api"), Some("user")) => Ok(b"testuser".to_vec()),
            (Some("api"), Some(p)) if p.starts_with("notifications") => {
                Ok(self.notifications.clone())
            }
            _ => Err(Error::Api(format!("unexpected gh args: {args:?}"))),
        }
    }
}

/// Recording fake runner: returns the given notifications for
/// `api notifications`, empty for any write, and records each invocation's
/// joined args so a test can assert the exact endpoint and method.
struct RecordGh {
    notifications: Vec<u8>,
    calls: Rc<RefCell<Vec<String>>>,
}

impl RecordGh {
    fn new(notifications: Vec<u8>) -> (Self, Rc<RefCell<Vec<String>>>) {
        let calls = Rc::new(RefCell::new(Vec::new()));
        (
            RecordGh {
                notifications,
                calls: calls.clone(),
            },
            calls,
        )
    }
}

impl GhRunner for RecordGh {
    fn run(&self, args: &[&str]) -> Result<Vec<u8>, Error> {
        self.calls.borrow_mut().push(args.join(" "));
        match (args.first().copied(), args.get(1).copied()) {
            (Some("api"), Some(p)) if p.starts_with("notifications") => {
                Ok(self.notifications.clone())
            }
            _ => Ok(Vec::new()),
        }
    }
}

#[test]
fn mark_notification_read_patches_the_thread() {
    let (gh, calls) = RecordGh::new(b"[]".to_vec());
    GithubBackend::new(gh).mark_notification_read(42).unwrap();
    assert_eq!(
        calls.borrow().as_slice(),
        &["api -X PATCH notifications/threads/42"]
    );
}

#[test]
fn mark_all_read_counts_unread_then_puts() {
    // The list carries read items too (`all=true`); only the unread ones are
    // counted, so an already-read item must not inflate the reported number.
    let notifs = r#"[
        {"id":"1","unread":true,"subject":{"title":"A"}},
        {"id":"2","unread":true,"subject":{"title":"B"}},
        {"id":"3","unread":false,"subject":{"title":"already read"}}
    ]"#
    .as_bytes()
    .to_vec();
    let (gh, calls) = RecordGh::new(notifs);
    let count = GithubBackend::new(gh)
        .mark_all_notifications_read()
        .unwrap();
    assert_eq!(count, 2);
    // The list is read first (to count), then the mark-all PUT is issued.
    assert_eq!(
        calls.borrow().as_slice(),
        &["api notifications?all=true", "api -X PUT notifications"]
    );
}

#[test]
fn list_notifications_requests_read_ones_too() {
    let (gh, calls) = RecordGh::new(b"[]".to_vec());
    GithubBackend::new(gh)
        .list_notifications(&mut RunsCache::new())
        .unwrap();
    assert_eq!(calls.borrow().as_slice(), &["api notifications?all=true"]);
}

#[test]
fn notification_from_gh_sets_read_flag_from_unread() {
    let read = notification_from_gh(&value(
        r#"{"id": "1", "unread": false, "subject": {"title": "done"}}"#,
    ));
    assert!(read.read);
    let unread = notification_from_gh(&value(
        r#"{"id": "2", "unread": true, "subject": {"title": "pending"}}"#,
    ));
    assert!(!unread.read);
    // A missing `unread` flag is treated as unread (read == false).
    let absent = notification_from_gh(&value(r#"{"id": "3", "subject": {"title": "legacy"}}"#));
    assert!(!absent.read);
}

/// Fake runner whose `--version` / `auth status` outcomes are configurable, to
/// classify [`gh_status`] without the real binary.
struct StatusGh {
    installed: bool,
    authed: bool,
}

impl GhRunner for StatusGh {
    fn run(&self, args: &[&str]) -> Result<Vec<u8>, Error> {
        match args.first().copied() {
            Some("--version") if self.installed => Ok(Vec::new()),
            Some("--version") => Err(Error::Io("spawn gh: not found".into())),
            Some("auth") if self.authed => Ok(Vec::new()),
            Some("auth") => Err(Error::Api("not logged in".into())),
            _ => Err(Error::Api(format!("unexpected gh args: {args:?}"))),
        }
    }
}

#[test]
fn gh_status_classifies_missing_unauth_ready() {
    assert_eq!(
        gh_status(&StatusGh {
            installed: false,
            authed: false
        }),
        GhStatus::Missing
    );
    assert_eq!(
        gh_status(&StatusGh {
            installed: true,
            authed: false
        }),
        GhStatus::Unauthenticated
    );
    assert_eq!(
        gh_status(&StatusGh {
            installed: true,
            authed: true
        }),
        GhStatus::Ready
    );
}

/// Fake runner that answers `gh api user --jq .login` with a fixed login.
struct AccountGh {
    login: &'static str,
}

impl GhRunner for AccountGh {
    fn run(&self, args: &[&str]) -> Result<Vec<u8>, Error> {
        match args {
            ["api", "user", "--jq", ".login"] => Ok(self.login.as_bytes().to_vec()),
            _ => Err(Error::Api(format!("unexpected gh args: {args:?}"))),
        }
    }
}

#[test]
fn gh_account_reads_login_and_defaults_host() {
    // Empty host resolves to github.com; login trimmed from `gh api user`.
    let acc = gh_account(&AccountGh { login: "octocat\n" }, "").unwrap();
    assert_eq!(acc.login, "octocat");
    assert_eq!(acc.host, "github.com");
    // An explicit enterprise host is echoed verbatim.
    let ent = gh_account(&AccountGh { login: "worker" }, "ghe.example").unwrap();
    assert_eq!(ent.host, "ghe.example");
}

#[test]
fn notification_from_gh_browser_url_for_pr_and_fallback() {
    // PullRequest maps to the `/pull/N` web path (not the API `/pulls/N`).
    let pr = value(
        r#"{
        "subject": {"title": "PR", "type": "PullRequest", "url": "https://api.github.com/repos/acme/app/pulls/7"},
        "repository": {"full_name": "acme/app", "html_url": "https://github.com/acme/app"}
    }"#,
    );
    assert_eq!(
        notification_from_gh(&pr).url.as_deref(),
        Some("https://github.com/acme/app/pull/7")
    );
    // No html_url on the repository: fall back to github.com/<full_name>.
    let fallback = value(
        r#"{
        "subject": {"title": "I", "type": "Issue", "url": "https://api.github.com/repos/acme/app/issues/3"},
        "repository": {"full_name": "acme/app"}
    }"#,
    );
    assert_eq!(
        notification_from_gh(&fallback).url.as_deref(),
        Some("https://github.com/acme/app/issues/3")
    );
    // Unsupported subject type: no link.
    let disc = value(
        r#"{
        "subject": {"title": "D", "type": "Discussion", "url": "https://api.github.com/repos/acme/app/discussions/1"},
        "repository": {"full_name": "acme/app"}
    }"#,
    );
    assert_eq!(notification_from_gh(&disc).url, None);
}

#[test]
fn notification_from_gh_check_suite_links_to_actions_page() {
    // CI (CheckSuite) notifications carry no subject number/url; they link to
    // the repository's Actions page (later upgraded to the specific run).
    let ci = value(
        r#"{
        "subject": {"title": "CI workflow run failed", "type": "CheckSuite", "url": null},
        "repository": {"full_name": "acme/app", "html_url": "https://github.com/acme/app"}
    }"#,
    );
    assert_eq!(
        notification_from_gh(&ci).url.as_deref(),
        Some("https://github.com/acme/app/actions")
    );
}

#[test]
fn check_suite_outcome_classifies_by_title() {
    assert_eq!(
        check_suite_outcome("CI workflow run failed for main branch"),
        "failure"
    );
    assert_eq!(
        check_suite_outcome("CI workflow run succeeded for main branch"),
        "success"
    );
    assert_eq!(check_suite_outcome("All checks passed"), "success");
    assert_eq!(check_suite_outcome("CI workflow run cancelled"), "neutral");
    assert_eq!(check_suite_outcome(""), "neutral");
}

#[test]
fn task_from_gh_maps_to_the_typed_entity() {
    let v = value(
        r#"{
        "number": 7, "title": "Fix gearbox", "state": "open",
        "repository": {"nameWithOwner": "acme/widgets"},
        "assignees": [{"login": "dana"}, {"login": "robin"}],
        "createdAt": "2026-07-01T09:00:00Z", "updatedAt": "2026-07-10T12:00:00Z",
        "url": "https://example.test/acme/widgets/pull/7"
    }"#,
    );
    let t = task_from_gh(
        &v,
        TaskKind::PullRequest,
        entities::InboxReason::ReviewRequested,
    );
    assert_eq!(t.id.display, "acme/widgets#7");
    assert_eq!(t.id.raw, "7");
    assert_eq!(t.kind, entities::TaskKind::PullRequest);
    assert_eq!(t.reason, entities::InboxReason::ReviewRequested);
    assert_eq!(t.title, "Fix gearbox");
    assert_eq!(t.status.as_deref(), Some("open"));
    assert_eq!(t.status_category, entities::StatusCategory::Open);
    assert_eq!(t.project.as_deref(), Some("acme/widgets"));
    assert_eq!(t.assignee.as_deref(), Some("dana, robin"));
    assert_eq!(
        t.url.as_deref(),
        Some("https://example.test/acme/widgets/pull/7")
    );
}

#[test]
fn notification_from_gh_maps_check_suite_with_outcome_and_browser_url() {
    let v = value(
        r#"{
        "id": "42", "reason": "ci_activity", "unread": true,
        "subject": {"title": "CI workflow run failed for main branch", "type": "CheckSuite"},
        "repository": {"full_name": "acme/widgets"},
        "updated_at": "2026-07-10T12:00:00Z"
    }"#,
    );
    let n = notification_from_gh(&v);
    assert_eq!(n.id, "42");
    assert_eq!(n.reason, "ci_activity");
    assert_eq!(n.kind, entities::NotifKind::CheckSuite);
    assert_eq!(n.outcome, Some(entities::CiOutcome::Failure));
    assert!(!n.read);
    assert_eq!(n.wp_id, None);
    // Issue notification: browser url derived from the subject number, read flag set.
    let issue = value(
        r#"{
        "id": "9", "reason": "mention", "unread": false,
        "subject": {"title": "Ping", "type": "Issue",
            "url": "https://api.github.com/repos/acme/widgets/issues/3"},
        "repository": {"full_name": "acme/widgets"}
    }"#,
    );
    let n2 = notification_from_gh(&issue);
    assert_eq!(n2.kind, entities::NotifKind::Issue);
    assert!(n2.read);
    assert_eq!(n2.outcome, None);
    assert_eq!(
        n2.url.as_deref(),
        Some("https://github.com/acme/widgets/issues/3")
    );
}

#[test]
fn list_my_tasks_merges_issues_and_prs() {
    let fake = FakeGh::new(
        r#"[{
            "number": 1, "title": "I1", "state": "open",
            "repository": {"nameWithOwner": "acme/app"}, "assignees": [{"login": "me"}]
        }]"#,
        r#"[{
            "number": 2, "title": "P2", "state": "open",
            "repository": {"nameWithOwner": "acme/app"}, "assignees": []
        }]"#,
        "[]",
    );
    // The same issue/PR fixture is returned by several searches (involves,
    // owner, review-requested); de-duplication collapses each to one entry.
    let out = GithubBackend::new(fake)
        .list_my_tasks(&mut LoginCache::new())
        .unwrap();
    assert_eq!(out.len(), 2);
    assert_eq!(out[0].kind, entities::TaskKind::Issue);
    assert_eq!(out[0].id.display, "acme/app#1");
    assert_eq!(out[1].kind, entities::TaskKind::PullRequest);
    assert_eq!(out[1].id.display, "acme/app#2");
    // The PR surfaces first from the review-requested search, so its reason wins.
    assert_eq!(out[1].reason, entities::InboxReason::ReviewRequested);
    // "acme/app" is not owned by the login ("testuser"), so not "mine".
    assert!(!out[0].mine);
    assert!(!out[1].mine);
}

#[test]
fn list_my_tasks_marks_tasks_in_own_repos() {
    // One issue in the login's own repo, one in someone else's.
    let fake = FakeGh::new(
        r#"[
            {"number": 1, "title": "mine", "state": "open",
             "repository": {"nameWithOwner": "testuser/app"}, "assignees": []},
            {"number": 2, "title": "theirs", "state": "open",
             "repository": {"nameWithOwner": "acme/app"}, "assignees": []}
        ]"#,
        "[]",
        "[]",
    );
    let out = GithubBackend::new(fake)
        .list_my_tasks(&mut LoginCache::new())
        .unwrap();
    let mine = out
        .iter()
        .find(|t| t.id.display == "testuser/app#1")
        .unwrap();
    let theirs = out.iter().find(|t| t.id.display == "acme/app#2").unwrap();
    assert!(mine.mine, "own-repo task must be marked mine");
    assert!(!theirs.mine, "other-repo task must not be marked mine");
}

/// Build a minimal typed task with the given display id and reason.
fn task(display: &str, reason: entities::InboxReason) -> entities::Task {
    entities::Task {
        id: entities::TaskId {
            display: display.into(),
            raw: display.into(),
        },
        kind: entities::TaskKind::Issue,
        reason,
        title: String::new(),
        url: None,
        status: None,
        status_category: entities::StatusCategory::Unknown,
        project: None,
        mine: false,
        assignee: None,
        author: None,
        created_at: None,
        updated_at: None,
        due_date: None,
        priority: None,
        labels: Vec::new(),
        custom_fields: Vec::new(),
    }
}

#[test]
fn dedup_by_id_keeps_first_occurrence_and_order() {
    let a1 = task("acme/app#1", entities::InboxReason::ReviewRequested);
    let a1_dup = task("acme/app#1", entities::InboxReason::Involved);
    let b2 = task("acme/app#2", entities::InboxReason::Own);
    let out = dedup_by_id(vec![a1, b2, a1_dup]);
    assert_eq!(out.len(), 2);
    assert_eq!(out[0].id.display, "acme/app#1");
    // The first occurrence (ReviewRequested) is kept over the later duplicate.
    assert_eq!(out[0].reason, entities::InboxReason::ReviewRequested);
    assert_eq!(out[1].id.display, "acme/app#2");
}

#[test]
fn parses_workflow_and_branch_from_check_suite_title() {
    let t = "CI workflow run failed for deps/keyring-core branch";
    assert_eq!(check_suite_workflow(t), Some("CI"));
    assert_eq!(check_suite_branch(t), Some("deps/keyring-core".to_string()));
    // A title without the marker yields no workflow / no branch.
    assert_eq!(check_suite_workflow("Deploy done"), None);
    assert_eq!(check_suite_branch("no branch marker here"), None);
}

#[test]
fn match_run_url_picks_workflow_branch_and_nearest_time() {
    let runs = list(
        r#"[
        {"name":"CI","head_branch":"feat","updated_at":"2026-07-15T11:21:20Z",
         "html_url":"https://github.com/acme/app/actions/runs/999"},
        {"name":"CI","head_branch":"master","updated_at":"2026-07-15T11:21:19Z",
         "html_url":"https://github.com/acme/app/actions/runs/111"},
        {"name":"Audit","head_branch":"feat","updated_at":"2026-07-15T11:21:18Z",
         "html_url":"https://github.com/acme/app/actions/runs/222"},
        {"name":"CI","head_branch":"feat","updated_at":"2026-07-10T00:00:00Z",
         "html_url":"https://github.com/acme/app/actions/runs/333"}
    ]"#,
    );
    // Workflow "CI" + branch "feat", nearest to 11:21:18: run 999 (not the
    // wrong branch 111, wrong workflow 222, or the far-older 333).
    assert_eq!(
        match_run_url(
            &runs,
            "CI workflow run failed for feat branch",
            "2026-07-15T11:21:18Z"
        ),
        Some("https://github.com/acme/app/actions/runs/999".to_string())
    );
    // No run for that workflow: no match.
    assert_eq!(
        match_run_url(
            &runs,
            "Release workflow run failed for feat branch",
            "2026-07-15T11:21:18Z"
        ),
        None
    );
}

/// Fake runner serving both the notifications inbox and a repository's runs.
struct CiGh {
    notifs: Vec<u8>,
    runs: Result<Vec<u8>, ()>,
}

impl GhRunner for CiGh {
    fn run(&self, args: &[&str]) -> Result<Vec<u8>, Error> {
        match (args.first().copied(), args.get(1).copied()) {
            (Some("api"), Some(p)) if p.starts_with("notifications") => Ok(self.notifs.clone()),
            (Some("api"), Some(p)) if p.contains("/actions/runs") => self
                .runs
                .clone()
                .map_err(|()| Error::Api("runs unavailable".into())),
            _ => Err(Error::Api(format!("unexpected gh args: {args:?}"))),
        }
    }
}

fn ci_notification() -> Vec<u8> {
    r#"[{
        "id":"1","reason":"ci_activity",
        "subject":{"title":"CI workflow run failed for deps/keyring-core branch",
                   "type":"CheckSuite","url":null},
        "repository":{"full_name":"acme/app","html_url":"https://github.com/acme/app"},
        "updated_at":"2026-07-15T11:21:18Z"
    }]"#
    .as_bytes()
    .to_vec()
}

#[test]
fn list_notifications_links_check_suite_to_specific_run() {
    // Shaped like the `--jq` projection the backend asks for: a flat array of
    // the four fields the matcher reads, not the raw `workflow_runs` envelope.
    let runs = r#"[
        {"name":"CI","head_branch":"deps/keyring-core","updated_at":"2026-07-15T11:21:20Z",
         "html_url":"https://github.com/acme/app/actions/runs/999"},
        {"name":"CI","head_branch":"master","updated_at":"2026-07-15T11:21:19Z",
         "html_url":"https://github.com/acme/app/actions/runs/111"}
    ]"#
    .as_bytes()
    .to_vec();
    let gh = CiGh {
        notifs: ci_notification(),
        runs: Ok(runs),
    };
    let out = GithubBackend::new(gh)
        .list_notifications(&mut RunsCache::new())
        .unwrap();
    assert_eq!(
        out[0].url.as_deref(),
        Some("https://github.com/acme/app/actions/runs/999")
    );
}

#[test]
fn check_suite_keeps_actions_fallback_when_runs_unavailable() {
    let gh = CiGh {
        notifs: ci_notification(),
        runs: Err(()),
    };
    let out = GithubBackend::new(gh)
        .list_notifications(&mut RunsCache::new())
        .unwrap();
    // Runs could not be fetched: the link stays the repository Actions page.
    assert_eq!(
        out[0].url.as_deref(),
        Some("https://github.com/acme/app/actions")
    );
}

#[test]
fn runs_request_projects_to_the_matched_fields() {
    let args = runs_args("acme/app");
    assert_eq!(
        args,
        vec![
            "api".to_owned(),
            "repos/acme/app/actions/runs?per_page=100".to_owned(),
            "--jq".to_owned(),
            "[.workflow_runs[] | {name, head_branch, updated_at, html_url}]".to_owned(),
        ]
    );
}

#[test]
fn runs_cache_reuse_requires_snapshot_newer_than_the_notification() {
    let at = |s: &str| parse_ts(s).unwrap();
    let fetched = at("2026-07-15T12:00:00Z");
    let now = at("2026-07-15T12:01:00Z");
    // Notification predates the snapshot: the run it names was already in it.
    assert!(runs_cache_is_fresh(
        fetched,
        Some("2026-07-15T11:59:59Z"),
        now
    ));
    // Notification is newer than the snapshot: its run may be missing there.
    assert!(!runs_cache_is_fresh(
        fetched,
        Some("2026-07-15T12:00:01Z"),
        now
    ));
    // Same instant is still covered by the snapshot.
    assert!(runs_cache_is_fresh(
        fetched,
        Some("2026-07-15T12:00:00Z"),
        now
    ));
    // Past the TTL nothing is reused, however old the notification is.
    assert!(!runs_cache_is_fresh(
        fetched,
        Some("2026-07-15T10:00:00Z"),
        at("2026-07-15T12:10:00Z")
    ));
    // An unusable timestamp cannot prove the snapshot covers the run.
    assert!(!runs_cache_is_fresh(fetched, Some("not a date"), now));
    assert!(!runs_cache_is_fresh(fetched, None, now));
}

/// Runner counting how often each endpoint was hit, reporting a caller-chosen
/// cache key so a test can exercise the cached and uncached paths.
struct CountingGh {
    key: Option<&'static str>,
    calls: Mutex<Vec<String>>,
}

impl CountingGh {
    fn new(key: Option<&'static str>) -> Self {
        CountingGh {
            key,
            calls: Mutex::new(Vec::new()),
        }
    }
    fn count_of(&self, needle: &str) -> usize {
        self.calls
            .lock()
            .unwrap()
            .iter()
            .filter(|c| c.contains(needle))
            .count()
    }
}

impl GhRunner for CountingGh {
    fn run(&self, args: &[&str]) -> Result<Vec<u8>, Error> {
        self.calls.lock().unwrap().push(args.join(" "));
        match (args.first().copied(), args.get(1).copied()) {
            (Some("api"), Some("user")) => Ok(b"testuser".to_vec()),
            // Writes (`api -X PUT notifications`) answer empty.
            (Some("api"), Some("-X")) => Ok(Vec::new()),
            (Some("api"), Some(p)) if p.starts_with("notifications") => Ok(ci_notification()),
            (Some("api"), Some(p)) if p.contains("/actions/runs") => Ok(r#"[
                {"name":"CI","head_branch":"deps/keyring-core",
                 "updated_at":"2026-07-15T11:21:20Z",
                 "html_url":"https://github.com/acme/app/actions/runs/999"}
            ]"#
            .as_bytes()
            .to_vec()),
            (Some("search"), _) => Ok(b"[]".to_vec()),
            _ => Err(Error::Api(format!("unexpected gh args: {args:?}"))),
        }
    }

    fn cache_key(&self) -> Option<&str> {
        self.key
    }
}

#[test]
fn mark_all_read_counts_without_resolving_ci_links() {
    // The inbox here is a CI notification, so listing it for display would
    // fetch the repository's runs. Counting unread must not: no link is shown.
    let gh = CountingGh::new(None);
    let count = GithubBackend::new(&gh)
        .mark_all_notifications_read()
        .unwrap();
    assert_eq!(count, 1);
    assert_eq!(gh.count_of("/actions/runs"), 0);
    // Listing the same inbox for display still resolves the link.
    GithubBackend::new(&gh)
        .list_notifications(&mut RunsCache::new())
        .unwrap();
    assert_eq!(gh.count_of("/actions/runs"), 1);
}

#[test]
fn login_lookup_is_cached_per_account() {
    let mut logins = LoginCache::new();
    // A runner without a cache key (every fake but this one) always asks.
    let uncached = CountingGh::new(None);
    GithubBackend::new(&uncached)
        .list_my_tasks(&mut logins)
        .unwrap();
    GithubBackend::new(&uncached)
        .list_my_tasks(&mut logins)
        .unwrap();
    assert_eq!(uncached.count_of("api user"), 2);

    // With a key the login is read once and reused by later backends.
    let cached = CountingGh::new(Some("login-cache-test.example"));
    GithubBackend::new(&cached)
        .list_my_tasks(&mut logins)
        .unwrap();
    GithubBackend::new(&cached)
        .list_my_tasks(&mut logins)
        .unwrap();
    assert_eq!(cached.count_of("api user"), 1);
}

#[test]
fn workflow_runs_are_reused_while_the_snapshot_still_covers_the_notification() {
    let mut snapshots = RunsCache::new();
    let uncached = CountingGh::new(None);
    GithubBackend::new(&uncached)
        .list_notifications(&mut snapshots)
        .unwrap();
    GithubBackend::new(&uncached)
        .list_notifications(&mut snapshots)
        .unwrap();
    assert_eq!(uncached.count_of("/actions/runs"), 2);

    // The notification is dated well in the past, so the first snapshot
    // answers for it and the second poll issues no Actions call at all.
    let cached = CountingGh::new(Some("runs-cache-test.example"));
    let first = GithubBackend::new(&cached)
        .list_notifications(&mut snapshots)
        .unwrap();
    let second = GithubBackend::new(&cached)
        .list_notifications(&mut snapshots)
        .unwrap();
    assert_eq!(cached.count_of("/actions/runs"), 1);
    // The cached pass resolves the same specific run as the fetched one.
    assert_eq!(
        second[0].url.as_deref(),
        Some("https://github.com/acme/app/actions/runs/999")
    );
    assert_eq!(first[0].url, second[0].url);
}

#[test]
fn list_notifications_normalizes() {
    let fake = FakeGh::new(
        "[]",
        "[]",
        r#"[{
            "id": "1", "reason": "assign",
            "subject": {"title": "T", "type": "PullRequest", "url": "u"},
            "repository": {"full_name": "acme/app"}, "updated_at": "2026-07-02T00:00:00Z"
        }]"#,
    );
    let out = GithubBackend::new(fake)
        .list_notifications(&mut RunsCache::new())
        .unwrap();
    assert_eq!(out.len(), 1);
    assert_eq!(out[0].title, "T");
    assert_eq!(out[0].project.as_deref(), Some("acme/app"));
}
