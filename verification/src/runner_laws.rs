//! What is asked of `gh`, and what its answers come to.
use crate::backend::{
    count_view, done_in, inbox_in, inbox_words, link_step, login_missing, login_step, mark_all_words,
    mark_one_words, marked_count, remembered, search_step, unit_view,
};
use crate::clock::{instant_view, Instant};
use crate::entities::{
    NotifKind, NotifKindView, Notification, NotificationView, Task, TaskView,
};
use crate::error::{answer_view, answers_view, Error, ErrorView};
use crate::json::{decoded, values_view, Json, JsonView};
use crate::notifications::{notification_of, notifications_view, unread_of};
use crate::run_laws::linking_changes_only_ci_links;
use crate::runner::{
    account_in, account_view, answers_batch, answers_run, auth_words, host_name, login_in, login_words,
    process_result, status_of, text_view, token_in, token_missing, token_step, variables_for, version_words,
    GhAccount, GhAccountView, GhRunner, GhStatus, MAX_PARALLEL_GH,
};
use crate::runs::GITHUB_MAX_PER_PAGE;
use crate::snapshots::{linked, CachedRuns, CachedRunsView, RUNS_CACHE_TTL_SECS};
use crate::tasks::{search_calls, searches_for, task_list, tasks_view, Search};
use crate::text::{decimal, joined, line_of};
use vstd::prelude::*;

verus! {

// ----------------------------------------------------------------------------
// Words
// ----------------------------------------------------------------------------

/// Each question to `gh` is spelled out; only the thread to mark read differs from call
/// to call, by its number.
pub proof fn questions_are_spelled_out(id: int)
    ensures
        version_words() == seq!["--version"@],
        auth_words() == seq!["auth"@, "status"@],
        login_words() == seq!["api"@, "user"@, "--jq"@, ".login"@],
        inbox_words() == seq!["api"@, "notifications?all=true"@],
        mark_all_words() == seq!["api"@, "-X"@, "PUT"@, "notifications"@],
        mark_one_words(id).len() == 4,
        mark_one_words(id).take(3) == seq!["api"@, "-X"@, "PATCH"@],
        mark_one_words(id)[3] == "notifications/threads/"@ + decimal(id),
{
    assert(mark_one_words(id).take(3) =~= seq!["api"@, "-X"@, "PATCH"@]);
}

// ----------------------------------------------------------------------------
// Status and account
// ----------------------------------------------------------------------------

/// Without `gh` it is missing, whoever is signed in; with it, the sign-in decides.
pub proof fn the_status_tells_both_probes(installed: bool, authenticated: bool)
    ensures
        status_of(installed, authenticated) == GhStatus::Missing <==> !installed,
        status_of(installed, authenticated) == GhStatus::Ready <==> installed && authenticated,
        status_of(installed, authenticated) == GhStatus::Unauthenticated <==> installed
            && !authenticated,
{
}

/// The account is the line that `gh` printed, on the host that was asked, which is
/// `github.com` where none was named; an error is passed on.
pub proof fn the_account_is_who_and_where(
    answer: Result<Seq<u8>, ErrorView>,
    host: Seq<char>,
)
    ensures
        answer matches Ok(raw) ==> login_in(answer) == Ok::<Seq<char>, ErrorView>(line_of(raw)),
        answer matches Err(e) ==> login_in(answer) == Err::<Seq<char>, ErrorView>(e),
        match (answer, account_in(answer, host)) {
            (Ok(raw), Ok(account)) => {
                &&& account.login == line_of(raw)
                &&& host.len() > 0 ==> account.host == host
                &&& host.len() == 0 ==> account.host == "github.com"@
            },
            (Err(e), Err(f)) => e == f,
            _ => false,
        },
{
}

// ----------------------------------------------------------------------------
// Processes and tokens
// ----------------------------------------------------------------------------

/// A process gets the host where one is named and the token where there is one, each
/// once, and no other variable.
pub proof fn a_process_gets_host_and_token(host: Seq<char>, token: Option<Seq<char>>)
    ensures
        ({
            let set = variables_for(host, token);
            let named: nat = if host.len() > 0 {
                1
            } else {
                0
            };
            let signed: nat = if token is Some {
                1
            } else {
                0
            };
            &&& set.len() == named + signed
            &&& host.len() > 0 ==> set[0] == ("GH_HOST"@, host)
            &&& token matches Some(t) ==> set[set.len() - 1] == ("GH_TOKEN"@, t)
        }),
{
}

/// A process that succeeded comes to its output; one that failed to an error that
/// repeats the call, word by word with blanks between, and the line it complained with.
pub proof fn a_process_comes_to_output_or_complaint(
    words: Seq<Seq<char>>,
    stdout: Seq<u8>,
    stderr: Seq<u8>,
)
    ensures
        process_result(words, true, stdout, stderr) == Ok::<Seq<u8>, ErrorView>(stdout),
        process_result(words, false, stdout, stderr) == Err::<Seq<u8>, ErrorView>(
            ErrorView::Api(
                seq!['g', 'h', ' '] + joined(words, seq![' ']) + seq![':', ' '] + line_of(stderr),
            ),
        ),
{
    reveal_strlit("gh ");
    reveal_strlit(" ");
    reveal_strlit(": ");
    assert("gh "@ =~= seq!['g', 'h', ' ']);
    assert(" "@ =~= seq![' ']);
    assert(": "@ =~= seq![':', ' ']);
}

/// A token is the line that a successful read printed, unless it is empty.
pub proof fn a_token_is_the_printed_line(success: bool, stdout: Seq<u8>, token: Seq<char>)
    ensures
        token_in(success, stdout) == Some(token) <==> success && token.len() > 0 && token
            == line_of(stdout),
{
}

/// A token lookup leaves what is kept for other hosts alone, keeps what it gives, and
/// gives what was kept where something was.
pub proof fn a_token_lookup_keeps_what_it_gives(
    host: Seq<char>,
    other: Seq<char>,
    before: Map<Seq<char>, Option<Seq<char>>>,
    after: Map<Seq<char>, Option<Seq<char>>>,
    token: Option<Seq<char>>,
)
    requires
        token_step(host, before, after, token),
    ensures
        ({
            let name = if host.len() == 0 {
                "github.com"@
            } else {
                host
            };
            &&& after.dom().contains(name) && after[name] == token
            &&& before.dom().contains(name) ==> token == before[name]
            &&& token_missing(host, before) <==> !before.dom().contains(name)
            &&& other != name ==> after.dom().contains(other) == before.dom().contains(other)
                && after[other] == before[other]
        }),
{
    assert(host_name(host) == (if host.len() == 0 {
        "github.com"@
    } else {
        host
    }));
}

// ----------------------------------------------------------------------------
// The operations
// ----------------------------------------------------------------------------

/// Where no login is kept, the one found is the line that `gh` answered the login
/// lookup with, and it is kept for the account; an error is passed on and nothing kept.
pub proof fn a_missing_login_is_asked_for<R: GhRunner>(
    runner: &R,
    key: Option<Seq<char>>,
    before: Map<Seq<char>, Seq<char>>,
    after: Map<Seq<char>, Seq<char>>,
    login: Result<Seq<char>, ErrorView>,
)
    requires
        login_step(runner, key, before, after, login),
        key matches Some(k) ==> !before.dom().contains(k),
    ensures
        login_missing(key, before),
        exists|answer: Result<Vec<u8>, Error>| #[trigger]
            answers_run(runner, login_words(), answer) && match answer {
                Ok(raw) => login == Ok::<Seq<char>, ErrorView>(line_of(raw@)),
                Err(e) => login == Err::<Seq<char>, ErrorView>(e.deep_view()),
            },
        match (key, login) {
            (Some(k), Ok(name)) => after == before.insert(k, name),
            _ => after == before,
        },
{
    let answer = choose|answer: Result<Vec<u8>, Error>| #[trigger]
        answers_run(runner, login_words(), answer) && login == login_in(answer_view(answer));
    assert(answers_run(runner, login_words(), answer));
    assert(after == remembered(before, key, login));
}

/// After a failed lookup its error is what comes of my list; otherwise the list is made
/// of the answers to the searches for the login.
pub proof fn the_list_is_made_for_the_login<R: GhRunner>(
    runner: &R,
    login: Result<Seq<char>, ErrorView>,
    result: Result<Seq<TaskView>, ErrorView>,
)
    requires
        search_step(runner, login, result),
    ensures
        login matches Err(e) ==> result == Err::<Seq<TaskView>, ErrorView>(e),
        login matches Ok(name) ==> exists|answers: Vec<Result<Vec<u8>, Error>>| #[trigger]
            answers_batch(runner, search_calls(searches_for(name)), answers) && result
                == task_list(answers_view(answers@), name),
{
}

/// Resolving links gives back as many notifications as there were, each as it was but
/// for the link of one about CI.
pub proof fn resolving_changes_nothing_but_ci_links<R: GhRunner>(
    runner: &R,
    items: Seq<NotificationView>,
    before: Map<(Seq<char>, Seq<char>), CachedRunsView>,
    after: Map<(Seq<char>, Seq<char>), CachedRunsView>,
    result: Seq<NotificationView>,
    i: int,
)
    requires
        link_step(runner, items, before, after, result),
        0 <= i < items.len(),
    ensures
        result.len() == items.len(),
        result[i] == (NotificationView { url: result[i].url, ..items[i] }),
        items[i].kind != NotifKindView::CheckSuite ==> result[i] == items[i],
{
    assert forall|runs: Map<Seq<char>, Seq<JsonView>>| #[trigger]
        linked(items, runs) == result implies result.len() == items.len()
        && result[i] == (NotificationView { url: result[i].url, ..items[i] }) && (items[i].kind
        != NotifKindView::CheckSuite ==> result[i] == items[i]) by {
        linking_changes_only_ci_links(items, runs, i);
    }
}

/// The inbox is what the output holds, and an error is passed on.
pub proof fn the_inbox_is_what_was_answered(answer: Result<Seq<u8>, ErrorView>)
    ensures
        match answer {
            Ok(raw) => match decoded(raw) {
                Ok(values) => {
                    &&& inbox_in(answer) matches Ok(items)
                    &&& items.len() == values.len()
                    &&& forall|i: int|
                        0 <= i < items.len() ==> #[trigger] items[i] == notification_of(values[i])
                },
                Err(reason) => inbox_in(answer) == Err::<Seq<NotificationView>, ErrorView>(
                    ErrorView::Api("parse gh output: "@ + reason),
                ),
            },
            Err(e) => inbox_in(answer) == Err::<Seq<NotificationView>, ErrorView>(e),
        },
{
}

/// Marking passes an error on; marking all that went well reports how many were unread.
pub proof fn marking_passes_errors_on(
    items: Seq<NotificationView>,
    answer: Result<Seq<u8>, ErrorView>,
)
    ensures
        answer is Ok <==> done_in(answer) is Ok,
        answer is Ok ==> marked_count(items, answer) == Ok::<nat, ErrorView>(unread_of(items)),
        answer matches Err(e) ==> done_in(answer) == Err::<(), ErrorView>(e) && marked_count(
            items,
            answer,
        ) == Err::<nat, ErrorView>(e),
{
}

// ----------------------------------------------------------------------------
// Views
// ----------------------------------------------------------------------------

/// A task is seen with all that it holds.
pub proof fn tasks_are_seen_whole(t: Task)
    ensures
        t.deep_view().display == t.id.display@,
        t.deep_view().raw == t.id.raw@,
        t.deep_view().kind == t.kind,
        t.deep_view().reason == t.reason,
        t.deep_view().title == t.title@,
        t.deep_view().url == t.url.deep_view(),
        t.deep_view().status == t.status.deep_view(),
        t.deep_view().status_category == t.status_category,
        t.deep_view().project == t.project.deep_view(),
        t.deep_view().mine == t.mine,
        t.deep_view().assignee == t.assignee.deep_view(),
        t.deep_view().author == t.author.deep_view(),
        t.deep_view().created_at == t.created_at.deep_view(),
        t.deep_view().updated_at == t.updated_at.deep_view(),
        t.deep_view().due_date == t.due_date.deep_view(),
        t.deep_view().priority == t.priority.deep_view(),
        t.deep_view().labels == t.labels.deep_view(),
        t.deep_view().custom_fields == t.custom_fields.deep_view(),
{
}

/// A notification is seen with all that it holds.
pub proof fn notifications_are_seen_whole(n: Notification)
    ensures
        n.deep_view().id == n.id@,
        n.deep_view().reason == n.reason@,
        n.deep_view().kind == n.kind.deep_view(),
        n.deep_view().title == n.title@,
        n.deep_view().project == n.project.deep_view(),
        n.deep_view().url == n.url.deep_view(),
        n.deep_view().updated_at == n.updated_at.deep_view(),
        n.deep_view().read == n.read,
        n.deep_view().outcome == n.outcome,
        n.deep_view().wp_id == n.wp_id,
{
}

/// What an operation returns is seen whole, its error as well.
pub proof fn results_are_seen_whole(
    tasks: Vec<Task>,
    items: Vec<Notification>,
    values: Vec<Json>,
    text: String,
    account: GhAccount,
    n: u64,
    t: Instant,
    e: Error,
)
    ensures
        tasks_view(Ok(tasks)) == Ok::<Seq<TaskView>, ErrorView>(tasks.deep_view()),
        tasks_view(Err(e)) == Err::<Seq<TaskView>, ErrorView>(e.deep_view()),
        notifications_view(Ok(items)) == Ok::<Seq<NotificationView>, ErrorView>(items.deep_view()),
        notifications_view(Err(e)) == Err::<Seq<NotificationView>, ErrorView>(e.deep_view()),
        values_view(Ok(values)) == Ok::<Seq<JsonView>, ErrorView>(values.deep_view()),
        values_view(Err(e)) == Err::<Seq<JsonView>, ErrorView>(e.deep_view()),
        text_view(Ok(text)) == Ok::<Seq<char>, ErrorView>(text@),
        text_view(Err(e)) == Err::<Seq<char>, ErrorView>(e.deep_view()),
        account_view(Ok(account)) == Ok::<GhAccountView, ErrorView>(account.deep_view()),
        account_view(Err(e)) == Err::<GhAccountView, ErrorView>(e.deep_view()),
        count_view(Ok(n)) == Ok::<nat, ErrorView>(n as nat),
        count_view(Err(e)) == Err::<nat, ErrorView>(e.deep_view()),
        unit_view(Err(e)) == Err::<(), ErrorView>(e.deep_view()),
        instant_view(Some(t)) == Some(t@),
        instant_view(None) is None,
{
}

/// A JSON value, a notification's kind and a search are seen as they are.
pub proof fn values_are_seen_whole(
    b: bool,
    n: Option<i64>,
    s: String,
    items: Vec<Json>,
    i: int,
    kind: NotifKind,
    search: Search,
)
    requires
        0 <= i < items@.len(),
    ensures
        Json::Null.deep_view() == JsonView::Null,
        Json::Bool(b).deep_view() == JsonView::Bool(b),
        Json::Number(n).deep_view() == JsonView::Number(n),
        Json::Text(s).deep_view() == JsonView::Text(s@),
        Json::Array(items).deep_view() matches JsonView::Array(seen) && seen.len() == items@.len()
            && seen[i] == items@[i].deep_view(),
        kind.deep_view() == NotifKindView::Issue <==> kind == NotifKind::Issue,
        kind.deep_view() == NotifKindView::PullRequest <==> kind == NotifKind::PullRequest,
        kind.deep_view() == NotifKindView::CheckSuite <==> kind == NotifKind::CheckSuite,
        kind matches NotifKind::Other(name) ==> kind.deep_view() == NotifKindView::Other(name@),
        search.deep_view().args == search.args.deep_view(),
        search.deep_view().kind == search.kind,
        search.deep_view().reason == search.reason,
{
}

/// At most ten processes run at a time, a hundred runs are asked for, and a run list
/// lives ten minutes.
pub proof fn limits_are_fixed()
    ensures
        MAX_PARALLEL_GH == 10,
        GITHUB_MAX_PER_PAGE == 100,
        RUNS_CACHE_TTL_SECS == 10 * 60,
{
}

/// An account, a kept run list and an answer are seen with all that they hold.
pub proof fn the_rest_is_seen_whole(
    account: GhAccount,
    cached: CachedRuns,
    answers: Seq<Result<Vec<u8>, Error>>,
    i: int,
)
    requires
        0 <= i < answers.len(),
    ensures
        account.deep_view() == (GhAccountView { login: account.login@, host: account.host@ }),
        cached.deep_view().fetched_at == cached.fetched_at@,
        cached.deep_view().runs == cached.runs.deep_view(),
        answers_view(answers).len() == answers.len(),
        match (answers[i], answers_view(answers)[i]) {
            (Ok(raw), Ok(seen)) => seen == raw@,
            (Err(Error::Io(m)), Err(ErrorView::Io(seen))) => seen == m@,
            (Err(Error::Api(m)), Err(ErrorView::Api(seen))) => seen == m@,
            _ => false,
        },
{
}

}
