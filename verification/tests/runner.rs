//! `gh` itself: its answers, its environment, its account and its token.
use laba_core::backend::{
    cached_login, count_and_mark, searched_tasks, GithubBackend, LoginCache,
};
use laba_core::error::Error;
use laba_core::notifications::parse_notifications;
use laba_core::runner::{
    account_from_answer, as_args, cached_token, classify_status, gh_account, gh_status,
    login_from_answer, named_host, probed_status, token_from_output, worker_count, GhCli, GhRunner, GhStatus,
    TokenCache, MAX_PARALLEL_GH,
};
use laba_core::snapshots::RunsCache;
use std::cell::{Cell, RefCell};

fn failure(message: &str) -> Error {
    Error::Api(message.to_string())
}

/// Runner that fails on the calls that start with a given word.
struct Failing {
    on: &'static str,
    calls: RefCell<Vec<String>>,
}

impl Failing {
    fn on(word: &'static str) -> Self {
        Failing { on: word, calls: RefCell::new(Vec::new()) }
    }
}

impl GhRunner for Failing {
    fn run(&self, args: &[&str]) -> Result<Vec<u8>, Error> {
        let call = args.join(" ");
        self.calls.borrow_mut().push(call.clone());
        if call.starts_with(self.on) {
            Err(failure("refused"))
        } else {
            Ok(b"[]".to_vec())
        }
    }
}

#[test]
fn a_failed_version_probe_is_the_last_one() {
    let gh = Failing::on("--version");
    assert_eq!(gh_status(&gh), GhStatus::Missing);
    assert_eq!(gh.calls.borrow().as_slice(), &["--version"]);
    let gh = Failing::on("auth");
    assert_eq!(gh_status(&gh), GhStatus::Unauthenticated);
    assert_eq!(gh.calls.borrow().as_slice(), &["--version", "auth status"]);
}

#[test]
fn probes_decide_the_status() {
    let ok = || Ok(Vec::new());
    let io = || Err(Error::Io("gone".to_string()));
    assert_eq!(classify_status(&ok(), &ok()), GhStatus::Ready);
    assert_eq!(classify_status(&ok(), &io()), GhStatus::Unauthenticated);
    assert_eq!(classify_status(&io(), &ok()), GhStatus::Missing);
    assert_eq!(classify_status(&Err(failure("x")), &io()), GhStatus::Missing);
}

#[test]
fn a_failed_account_lookup_passes_its_error_on() {
    let gh = Failing::on("api user");
    assert_eq!(gh_account(&gh, "").unwrap_err(), failure("refused"));
    assert_eq!(gh.calls.borrow().as_slice(), &["api user --jq .login"]);
    assert_eq!(
        account_from_answer(Err(Error::Io("gone".to_string())), "h").unwrap_err(),
        Error::Io("gone".to_string())
    );
    let account = account_from_answer(Ok(b" a\xff \n".to_vec()), "h").unwrap();
    assert_eq!(account.login, "a\u{fffd}");
    assert_eq!(account.host, "h");
    assert_eq!(login_from_answer(Ok(b"\n".to_vec())).unwrap(), "");
}

#[test]
fn failures_of_the_backend_pass_through() {
    let refused = failure("refused");
    let backend = GithubBackend::new(Failing::on("api"));
    assert_eq!(backend.mark_notification_read(1).unwrap_err(), refused);
    assert_eq!(backend.mark_all_notifications_read().unwrap_err(), refused);
    assert_eq!(backend.list_notifications(&mut RunsCache::new()).unwrap_err(), refused);
    assert_eq!(backend.list_my_tasks(&mut LoginCache::new()).unwrap_err(), refused);
    let backend = GithubBackend::new(Failing::on("search prs"));
    assert_eq!(backend.list_my_tasks(&mut LoginCache::new()).unwrap_err(), refused);
    // The list can be read, the request to mark it cannot be made.
    let gh = Failing::on("api -X PUT");
    assert_eq!(
        GithubBackend::new(&gh).mark_all_notifications_read().unwrap_err(),
        refused
    );
    assert_eq!(gh.calls.borrow().len(), 2);
    // Without a list nothing is marked.
    let gh = Failing::on("api notifications");
    assert!(GithubBackend::new(&gh).mark_all_notifications_read().is_err());
    assert_eq!(gh.calls.borrow().len(), 1);
}

#[test]
fn the_smallest_thread_id_is_spelled_out() {
    let gh = Failing::on("nothing");
    GithubBackend::new(&gh).mark_notification_read(i64::MIN).unwrap();
    assert_eq!(
        gh.calls.borrow().as_slice(),
        &["api -X PATCH notifications/threads/-9223372036854775808"]
    );
}

#[test]
fn batches_run_in_order_by_default() {
    let gh = Failing::on("b");
    let calls: Vec<Vec<String>> = ["a", "b", "c"]
        .iter()
        .map(|w| vec![w.to_string(), "x".to_string()])
        .collect();
    let answers = gh.run_batch(&calls);
    assert_eq!(answers, vec![Ok(b"[]".to_vec()), Err(failure("refused")), Ok(b"[]".to_vec())]);
    assert_eq!(gh.calls.borrow().as_slice(), &["a x", "b x", "c x"]);
    assert_eq!(gh.cache_key(), None);
    assert_eq!(as_args(&calls[0]), vec!["a", "x"]);
}

/// Runner with an account whose login lookup fails the first time.
struct Flaky {
    lookups: Cell<u32>,
}

impl GhRunner for Flaky {
    fn run(&self, _args: &[&str]) -> Result<Vec<u8>, Error> {
        self.lookups.set(self.lookups.get() + 1);
        if self.lookups.get() == 1 {
            Err(failure("later"))
        } else {
            Ok(b"octocat\n".to_vec())
        }
    }

    fn cache_key(&self) -> Option<&str> {
        Some("github.com")
    }
}

#[test]
fn a_failed_login_lookup_is_not_kept() {
    let gh = Flaky { lookups: Cell::new(0) };
    let backend = GithubBackend::new(&gh);
    let mut logins = LoginCache::new();
    logins.insert("ghe.example".to_string(), "worker".to_string());
    assert_eq!(backend.my_login(&mut logins).unwrap_err(), failure("later"));
    assert_eq!(logins.len(), 1);
    assert_eq!(backend.my_login(&mut logins).unwrap(), "octocat");
    assert_eq!(backend.my_login(&mut logins).unwrap(), "octocat");
    assert_eq!(gh.lookups.get(), 2);
    assert_eq!(logins.get("github.com").map(String::as_str), Some("octocat"));
    assert_eq!(logins.get("ghe.example").map(String::as_str), Some("worker"));
}

#[test]
fn the_default_host_has_a_name() {
    assert_eq!(named_host(""), "github.com");
    assert_eq!(named_host("ghe.example"), "ghe.example");
    let key = |host: &str| {
        GhCli { host: host.to_string() }.cache_key().map(str::to_owned)
    };
    assert_eq!(key("").as_deref(), Some("github.com"));
    assert_eq!(key("ghe.example").as_deref(), Some("ghe.example"));
}

#[test]
fn host_and_token_go_into_the_environment() {
    let variables = |host: &str, token: Option<&str>| {
        GhCli { host: host.to_string() }.environment(token.map(str::to_owned))
    };
    let pair = |k: &str, v: &str| (k.to_string(), v.to_string());
    assert_eq!(variables("", None), vec![]);
    assert_eq!(variables("h", None), vec![pair("GH_HOST", "h")]);
    assert_eq!(variables("", Some("t")), vec![pair("GH_TOKEN", "t")]);
    assert_eq!(
        variables("h", Some("t")),
        vec![pair("GH_HOST", "h"), pair("GH_TOKEN", "t")]
    );
}

#[test]
fn finished_processes_give_output_or_complaint() {
    assert_eq!(
        GhCli::finish(&["api", "user"], true, b"out\n".to_vec(), b"ignored"),
        Ok(b"out\n".to_vec())
    );
    assert_eq!(
        GhCli::finish(&["api", "user"], false, b"out".to_vec(), b" no such\xff \n"),
        Err(failure("gh api user: no such\u{fffd}"))
    );
    assert_eq!(
        GhCli::not_started("not found"),
        Error::Io("spawn gh: not found".to_string())
    );
}

#[test]
fn a_batch_gets_at_most_ten_workers() {
    assert_eq!(MAX_PARALLEL_GH, 10);
    assert_eq!(worker_count(0), 0);
    assert_eq!(worker_count(9), 9);
    assert_eq!(worker_count(10), 10);
    assert_eq!(worker_count(11), 10);
    assert_eq!(worker_count(usize::MAX), 10);
}

#[test]
fn tokens_come_from_successful_output() {
    assert_eq!(token_from_output(true, b" abc\n"), Some("abc".to_string()));
    assert_eq!(token_from_output(true, b" \n"), None);
    assert_eq!(token_from_output(false, b"abc"), None);
}

#[test]
fn a_token_is_read_once_per_host() {
    let mut cache = TokenCache::new();
    let read = RefCell::new(Vec::new());
    let ask = |cache: &mut TokenCache, host: &str, token: Option<&str>| {
        cached_token(cache, host, |h: &str| {
            read.borrow_mut().push(h.to_string());
            token.map(str::to_owned)
        })
    };
    assert_eq!(ask(&mut cache, "", Some("one")).as_deref(), Some("one"));
    assert_eq!(ask(&mut cache, "github.com", Some("two")).as_deref(), Some("one"));
    // A failed read is kept too.
    assert_eq!(ask(&mut cache, "h", None), None);
    assert_eq!(ask(&mut cache, "h", Some("late")), None);
    assert_eq!(read.borrow().as_slice(), &["", "h"]);
}

#[test]
fn a_kept_login_is_not_asked_for() {
    let mut logins = LoginCache::new();
    let key = || Some("h".to_string());
    let first = cached_login(&mut logins, key(), || Ok(b"octocat\n".to_vec()));
    assert_eq!(first.unwrap(), "octocat");
    let again = cached_login(&mut logins, key(), || panic!("nothing to ask"));
    assert_eq!(again.unwrap(), "octocat");
    let unkeyed = cached_login(&mut logins, None, || Ok(b"other".to_vec()));
    assert_eq!(unkeyed.unwrap(), "other");
    assert_eq!(logins.len(), 1);
}

#[test]
fn the_sign_in_is_probed_only_where_there_is_a_version() {
    let ok = || Ok(Vec::new());
    let no = || Err(failure("no"));
    assert_eq!(probed_status(no, || panic!("nothing to sign in to")), GhStatus::Missing);
    assert_eq!(probed_status(ok, no), GhStatus::Unauthenticated);
    assert_eq!(probed_status(ok, ok), GhStatus::Ready);
}

#[test]
fn nothing_is_searched_after_a_failed_lookup() {
    let failed = searched_tasks(Err(failure("no login")), |_| panic!("nothing to search"));
    assert_eq!(failed, Err(failure("no login")));
    let found = searched_tasks(Ok("me".to_string()), |calls| {
        assert_eq!(calls.len(), 5);
        assert_eq!(calls[4][..4].join(" "), "search prs --owner me");
        calls.iter().map(|_| Ok(br#"[{"number": 1}]"#.to_vec())).collect()
    });
    assert_eq!(found.unwrap().len(), 1);
}

#[test]
fn without_a_login_no_search_is_sent() {
    let gh = Failing::on("api user");
    assert!(GithubBackend::new(&gh).list_my_tasks(&mut LoginCache::new()).is_err());
    assert_eq!(gh.calls.borrow().as_slice(), &["api user --jq .login"]);
}

#[test]
fn nothing_is_marked_before_it_is_listed() {
    let calls = RefCell::new(Vec::new());
    let inbox = |raw: &[u8]| {
        calls.borrow_mut().push("list");
        parse_notifications(raw)
    };
    let mark = |answer: Result<Vec<u8>, Error>| {
        calls.borrow_mut().push("mark");
        answer
    };
    let two = br#"[{"unread": true}, {"unread": false}, {}]"#;
    assert_eq!(count_and_mark(|| inbox(two), || mark(Ok(Vec::new()))), Ok(2));
    assert_eq!(
        count_and_mark(|| inbox(two), || mark(Err(failure("no")))),
        Err(failure("no"))
    );
    assert_eq!(calls.borrow().as_slice(), &["list", "mark", "list", "mark"]);
    assert!(count_and_mark(|| inbox(b"{}"), || panic!("nothing to mark")).is_err());
}

#[test]
fn accounts_can_be_cloned() {
    let account = account_from_answer(Ok(b"octocat".to_vec()), "").unwrap();
    assert_eq!(account.clone(), account);
}
