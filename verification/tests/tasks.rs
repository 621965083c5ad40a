//! Tasks: mapping, searching, merging.
use laba_core::entities;
use laba_core::entities::{InboxReason, StatusCategory, Task};
use laba_core::error::Error;
use laba_core::json::{parse_values, Json};
use laba_core::tasks::{
    assignees_string, calls_of, dedup_by_id, gather_tasks, mark_mine, parse_tasks, search_args,
    status_category_from_state, task_from_gh, task_searches, tasks_from_answers, TaskKind,
};

fn value(text: &str) -> Json {
    parse_values(format!("[{}]", text).as_bytes())
        .unwrap()
        .pop()
        .unwrap()
}

fn item(repo: &str, number: i64) -> String {
    format!(
        r#"{{"number": {}, "repository": {{"nameWithOwner": "{}"}}}}"#,
        number, repo
    )
}

fn answer(items: &[String]) -> Result<Vec<u8>, Error> {
    Ok(format!("[{}]", items.join(",")).into_bytes())
}

fn shown(tasks: &[Task]) -> Vec<(&str, InboxReason)> {
    tasks
        .iter()
        .map(|t| (t.id.display.as_str(), t.reason))
        .collect()
}

#[test]
fn search_results_keep_their_times() {
    let t = task_from_gh(
        &value(r#"{"createdAt": "2026-07-01T09:00:00Z", "updatedAt": "2026-07-10T12:00:00Z"}"#),
        TaskKind::Issue,
        InboxReason::Own,
    );
    assert_eq!(t.created_at.as_deref(), Some("2026-07-01T09:00:00Z"));
    assert_eq!(t.updated_at.as_deref(), Some("2026-07-10T12:00:00Z"));
}

#[test]
fn an_empty_result_is_an_empty_task() {
    let t = task_from_gh(&value("{}"), TaskKind::Issue, InboxReason::Involved);
    assert_eq!(
        t,
        Task {
            id: entities::TaskId {
                display: String::new(),
                raw: String::new(),
            },
            kind: entities::TaskKind::Issue,
            reason: InboxReason::Involved,
            title: String::new(),
            url: None,
            status: None,
            status_category: StatusCategory::Unknown,
            project: None,
            mine: false,
            assignee: None,
            author: None,
            created_at: None,
            updated_at: None,
            due_date: None,
            priority: None,
            labels: Vec::new(),
            custom_fields: Vec::new(),
        }
    );
}

#[test]
fn ids_without_a_repository_are_bare_numbers() {
    let id = |text: &str| {
        let t = task_from_gh(&value(text), TaskKind::PullRequest, InboxReason::Own);
        (t.id.display, t.id.raw, t.project)
    };
    assert_eq!(id(r#"{"number": 5}"#), ("5".into(), "5".into(), None));
    assert_eq!(
        id(r#"{"number": -5, "repository": {"nameWithOwner": ""}}"#),
        ("-5".into(), "-5".into(), None)
    );
    assert_eq!(
        id(r#"{"number": 1.5, "repository": {"nameWithOwner": "a/b"}}"#),
        ("".into(), "".into(), Some("a/b".into()))
    );
}

#[test]
fn assignees_without_a_login_are_passed_over() {
    let of = |text: &str| assignees_string(&value(text));
    assert_eq!(
        of(r#"{"assignees": [{"login": "a"}, {}, {"login": 3}, "x", {"login": "b"}]}"#),
        Some("a, b".to_string())
    );
    assert_eq!(of(r#"{"assignees": [{"login": ""}]}"#), Some(String::new()));
    assert_eq!(of(r#"{"assignees": []}"#), None);
    assert_eq!(of(r#"{"assignees": "a"}"#), None);
    assert_eq!(of("{}"), None);
}

#[test]
fn states_fall_into_categories_whatever_their_case() {
    assert_eq!(status_category_from_state(Some("OPEN")), StatusCategory::Open);
    assert_eq!(status_category_from_state(Some("Closed")), StatusCategory::Done);
    assert_eq!(status_category_from_state(Some("merged")), StatusCategory::Done);
    assert_eq!(status_category_from_state(Some("opened")), StatusCategory::Unknown);
    assert_eq!(status_category_from_state(Some("")), StatusCategory::Unknown);
    assert_eq!(status_category_from_state(None), StatusCategory::Unknown);
}

#[test]
fn the_five_searches_are_asked_in_order() {
    assert_eq!(
        search_args("issues", &["--x", "y"], "f"),
        vec!["search", "issues", "--x", "y", "--state", "open", "--json", "f"]
    );
    let searches = task_searches("me");
    let calls: Vec<String> = calls_of(&searches).iter().map(|c| c.join(" ")).collect();
    let issue = "--state open --json number,title,state,repository,assignees,createdAt,updatedAt,url";
    let pr = format!("{},isDraft", issue);
    assert_eq!(
        calls,
        vec![
            format!("search issues --involves @me {}", issue),
            format!("search issues --owner me {}", issue),
            format!("search prs --review-requested @me {}", pr),
            format!("search prs --involves @me {}", pr),
            format!("search prs --owner me {}", pr),
        ]
    );
    let kinds: Vec<(TaskKind, InboxReason)> =
        searches.iter().map(|s| (s.kind, s.reason)).collect();
    assert_eq!(
        kinds,
        vec![
            (TaskKind::Issue, InboxReason::Involved),
            (TaskKind::Issue, InboxReason::Own),
            (TaskKind::PullRequest, InboxReason::ReviewRequested),
            (TaskKind::PullRequest, InboxReason::Involved),
            (TaskKind::PullRequest, InboxReason::Own),
        ]
    );
}

#[test]
fn the_earliest_search_gives_the_reason() {
    let answers = vec![
        answer(&[item("me/a", 1), item("x/b", 2)]),
        answer(&[item("me/a", 1), item("me/a", 3)]),
        answer(&[item("x/b", 4)]),
        answer(&[item("x/b", 4), item("x/b", 5)]),
        answer(&[item("me/a", 5), item("x/b", 5)]),
    ];
    let list = tasks_from_answers(answers, "me").unwrap();
    assert_eq!(
        shown(&list),
        vec![
            ("me/a#1", InboxReason::Involved),
            ("x/b#2", InboxReason::Involved),
            ("me/a#3", InboxReason::Own),
            ("x/b#4", InboxReason::ReviewRequested),
            ("x/b#5", InboxReason::Involved),
            ("me/a#5", InboxReason::Own),
        ]
    );
    let mine: Vec<bool> = list.iter().map(|t| t.mine).collect();
    assert_eq!(mine, vec![true, false, true, false, false, true]);
}

#[test]
fn the_first_failing_search_decides() {
    let broken = || Ok(b"{".to_vec());
    let failed = |m: &str| Err(Error::Api(m.to_string()));
    let answers = vec![answer(&[]), failed("first"), broken(), failed("second")];
    assert_eq!(
        tasks_from_answers(answers, "me").unwrap_err(),
        Error::Api("first".to_string())
    );
    let answers = vec![answer(&[]), broken(), failed("late")];
    match tasks_from_answers(answers, "me").unwrap_err() {
        Error::Api(m) => assert!(m.starts_with("parse gh output: ")),
        other => panic!("{:?}", other),
    }
    assert_eq!(
        tasks_from_answers(vec![Err(Error::Io("gone".to_string()))], "me").unwrap_err(),
        Error::Io("gone".to_string())
    );
}

#[test]
fn answers_and_searches_are_paired_as_far_as_both_go() {
    let searches = task_searches("me");
    assert_eq!(gather_tasks(vec![], &searches).unwrap().len(), 0);
    let many: Vec<Result<Vec<u8>, Error>> = (0..7).map(|i| answer(&[item("a/b", i)])).collect();
    let all = gather_tasks(many, &searches).unwrap();
    assert_eq!(all.len(), 5);
    assert_eq!(all[2].reason, InboxReason::ReviewRequested);
}

#[test]
fn tasks_without_an_id_are_told_apart_by_their_link() {
    let raw = br#"[{"url": "u1"}, {"url": "u2"}, {"url": "u1", "title": "again"}, {}, {"title": "x"}]"#;
    let tasks = parse_tasks(raw, TaskKind::Issue, InboxReason::Own).unwrap();
    let once = dedup_by_id(tasks);
    let links: Vec<Option<&str>> = once.iter().map(|t| t.url.as_deref()).collect();
    assert_eq!(links, vec![Some("u1"), Some("u2"), None]);
    assert_eq!(once[0].title, "");
    let before = format!("{:?}", once);
    assert_eq!(format!("{:?}", dedup_by_id(once)), before);
}

#[test]
fn only_the_owner_makes_a_task_mine() {
    let tasks = parse_tasks(
        format!(
            "[{},{},{},{{}}]",
            item("me/a", 1),
            item("me2/a", 2),
            item("me", 3)
        )
        .as_bytes(),
        TaskKind::Issue,
        InboxReason::Own,
    )
    .unwrap();
    let mine = |login: &str, tasks: Vec<Task>| -> (Vec<bool>, Vec<Task>) {
        let t = mark_mine(tasks, login);
        (t.iter().map(|t| t.mine).collect(), t)
    };
    let (flags, tasks) = mine("me", tasks);
    assert_eq!(flags, vec![true, false, true, false]);
    let (flags, _) = mine("Me", tasks);
    assert_eq!(flags, vec![false, false, false, false]);
}

#[test]
fn display_ids_tell_neighbouring_numbers_apart() {
    let list = tasks_from_answers(
        vec![answer(&[item("a/b", 1), item("a/b", 11), item("a/b", -1)])],
        "me",
    )
    .unwrap();
    assert_eq!(list.len(), 3);
}
