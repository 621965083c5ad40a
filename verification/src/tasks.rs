//! Tasks: issues and pull requests as `gh search` prints them, turned into
//! [`Task`]s, merged and de-duplicated.
use crate::entities;
use crate::entities::{InboxReason, StatusCategory, Task, TaskId, TaskView};
use crate::error::{answer_view, answers_view, Error, ErrorView};
use crate::json::{parse_values, read_array, Json, JsonView};
use crate::text::{
    before_first, decimal, decimal_text, first_segment, join_words, joined, lower,
    same_ignoring_case, same_text,
};
use vstd::prelude::*;
use vstd::string::*;

verus! {

/// Whether a searched item is an issue or a pull request; maps to the typed
/// [`entities::TaskKind`] on the produced task.
#[derive(Debug, Clone, Copy, PartialEq, Eq, Structural)]
pub enum TaskKind {
    Issue,
    PullRequest,
}

// ----------------------------------------------------------------------------
// One search result
// ----------------------------------------------------------------------------

pub open spec fn or_empty(s: Option<Seq<char>>) -> Seq<char> {
    match s {
        Some(s) => s,
        None => Seq::empty(),
    }
}

/// The logins of the items that carry one, in their order.
pub open spec fn logins_of(items: Seq<JsonView>) -> Seq<Seq<char>>
    decreases items.len(),
{
    if items.len() == 0 {
        Seq::empty()
    } else {
        let head = logins_of(items.drop_last());
        match items.last().text_at("login"@) {
            Some(login) => head.push(login),
            None => head,
        }
    }
}

/// The assignees' logins, separated by commas; nothing when there are none.
pub open spec fn assignees_of(v: JsonView) -> Option<Seq<char>> {
    match v.array_at("assignees"@) {
        Some(items) => if logins_of(items).len() == 0 {
            None
        } else {
            Some(joined(logins_of(items), ", "@))
        },
        None => None,
    }
}

/// An open item, or one that is closed or merged, whatever the letters' case.
pub open spec fn status_category_of(state: Option<Seq<char>>) -> StatusCategory {
    match state {
        Some(s) => if lower(s) == "open"@ {
            StatusCategory::Open
        } else if lower(s) == "closed"@ || lower(s) == "merged"@ {
            StatusCategory::Done
        } else {
            StatusCategory::Unknown
        },
        None => StatusCategory::Unknown,
    }
}

pub open spec fn kind_of(kind: TaskKind) -> entities::TaskKind {
    match kind {
        TaskKind::Issue => entities::TaskKind::Issue,
        TaskKind::PullRequest => entities::TaskKind::PullRequest,
    }
}

/// The repository of a search result, as `owner/name`; empty when there is none.
pub open spec fn repo_of(v: JsonView) -> Seq<char> {
    or_empty(v.text_within("repository"@, "nameWithOwner"@))
}

/// `owner/name#number`, the bare number without a repository, and nothing
/// without a number.
pub open spec fn display_of(repo: Seq<char>, number: Option<i64>) -> Seq<char> {
    match number {
        Some(n) => if repo.len() == 0 {
            decimal(n as int)
        } else {
            repo + "#"@ + decimal(n as int)
        },
        None => Seq::empty(),
    }
}

/// The task that one element of `gh search` output stands for.
pub open spec fn task_of(v: JsonView, kind: TaskKind, reason: InboxReason) -> TaskView {
    let repo = repo_of(v);
    let number = v.integer_at("number"@);
    TaskView {
        display: display_of(repo, number),
        raw: match number {
            Some(n) => decimal(n as int),
            None => Seq::empty(),
        },
        kind: kind_of(kind),
        reason,
        title: or_empty(v.text_at("title"@)),
        url: v.text_at("url"@),
        status: v.text_at("state"@),
        status_category: status_category_of(v.text_at("state"@)),
        project: if repo.len() == 0 {
            None
        } else {
            Some(repo)
        },
        mine: false,
        assignee: assignees_of(v),
        author: None,
        created_at: v.text_at("createdAt"@),
        updated_at: v.text_at("updatedAt"@),
        due_date: None,
        priority: None,
        labels: Seq::empty(),
        custom_fields: Seq::empty(),
    }
}

/// Assignees as a comma-joined string, or `None` when there are none.
pub fn assignees_string(v: &Json) -> (r: Option<String>)
    ensures
        r.deep_view() == assignees_of(v.deep_view()),
{
    match v.array_at("assignees") {
        None => None,
        Some(items) => {
            let mut logins: Vec<&str> = Vec::new();
            let mut i: usize = 0;
            let ghost all = items.deep_view();
            while i < items.len()
                invariant
                    all == items.deep_view(),
                    i <= items@.len(),
                    logins.deep_view() == logins_of(all.take(i as int)),
                decreases items@.len() - i,
            {
                let ghost before = logins.deep_view();
                assert(all.take(i + 1).drop_last() =~= all.take(i as int));
                assert(all.take(i + 1).last() == items@[i as int].deep_view());
                if let Some(login) = items[i].str_at("login") {
                    logins.push(login);
                    assert(logins.deep_view() =~= before.push(login@));
                }
                i += 1;
            }
            assert(all.take(all.len() as int) =~= all);
            if logins.len() == 0 {
                None
            } else {
                let words = logins.as_slice();
                assert(words.deep_view() =~= logins.deep_view());
                Some(join_words(words, ", "))
            }
        },
    }
}

/// Map a GitHub issue/PR `state` (`open` / `closed` / `merged`) to a normalized
/// status bucket.
pub fn status_category_from_state(state: Option<&str>) -> (r: StatusCategory)
    ensures
        r == status_category_of(state.deep_view()),
{
    proof {
        reveal_strlit("open");
        reveal_strlit("closed");
        reveal_strlit("merged");
        assert(lower("open"@) =~= "open"@);
        assert(lower("closed"@) =~= "closed"@);
        assert(lower("merged"@) =~= "merged"@);
    }
    match state {
        Some(s) => if same_ignoring_case(s, "open") {
            StatusCategory::Open
        } else if same_ignoring_case(s, "closed") || same_ignoring_case(s, "merged") {
            StatusCategory::Done
        } else {
            StatusCategory::Unknown
        },
        None => StatusCategory::Unknown,
    }
}

/// Build a typed [`Task`] from one `gh search issues`/`prs` element. `reason` is
/// supplied by the caller, which knows the search that produced the item
/// (involves / review-requested / owner); GitHub search does not tag it.
pub fn task_from_gh(v: &Json, kind: TaskKind, reason: InboxReason) -> (t: Task)
    ensures
        t.deep_view() == task_of(v.deep_view(), kind, reason),
{
    let repo: &str = match v.str_within("repository", "nameWithOwner") {
        Some(repo) => repo,
        None => "",
    };
    proof {
        reveal_strlit("");
        assert(repo@ =~= repo_of(v.deep_view()));
    }
    let number: Option<i64> = v.integer_at("number");
    let raw: String = match number {
        Some(n) => decimal_text(n),
        None => String::new(),
    };
    let display: String = match number {
        Some(_) => if repo.is_empty() {
            raw.clone()
        } else {
            let mut display: String = repo.to_owned();
            display.append("#");
            display.append(raw.as_str());
            display
        },
        None => String::new(),
    };
    let title: String = match v.string_at("title") {
        Some(title) => title,
        None => String::new(),
    };
    let state: Option<&str> = v.str_at("state");
    let status_category = status_category_from_state(state);
    let t = Task {
        id: TaskId { display, raw },
        kind: match kind {
            TaskKind::Issue => entities::TaskKind::Issue,
            TaskKind::PullRequest => entities::TaskKind::PullRequest,
        },
        reason,
        title,
        url: v.string_at("url"),
        status: v.string_at("state"),
        status_category,
        project: if repo.is_empty() {
            None
        } else {
            Some(repo.to_owned())
        },
        mine: false,
        assignee: assignees_string(v),
        author: None,
        created_at: v.string_at("createdAt"),
        updated_at: v.string_at("updatedAt"),
        due_date: None,
        priority: None,
        labels: Vec::new(),
        custom_fields: Vec::new(),
    };
    proof {
        let w = task_of(v.deep_view(), kind, reason);
        assert(t.deep_view().labels =~= w.labels);
        assert(t.deep_view().custom_fields =~= w.custom_fields);
        assert(state.deep_view() == v.deep_view().text_at("state"@));
    }
    t
}

// ----------------------------------------------------------------------------
// The output of one search
// ----------------------------------------------------------------------------

/// Each element as a task, in the same order.
pub open spec fn tasks_of(
    values: Seq<JsonView>,
    kind: TaskKind,
    reason: InboxReason,
) -> Seq<TaskView> {
    Seq::new(values.len(), |i: int| task_of(values[i], kind, reason))
}

/// What the output of one search comes to.
pub open spec fn search_result(
    raw: Seq<u8>,
    kind: TaskKind,
    reason: InboxReason,
) -> Result<Seq<TaskView>, ErrorView> {
    match read_array(raw) {
        Ok(values) => Ok(tasks_of(values, kind, reason)),
        Err(e) => Err(e),
    }
}

pub open spec fn tasks_view(r: Result<Vec<Task>, Error>) -> Result<Seq<TaskView>, ErrorView> {
    match r {
        Ok(tasks) => Ok(tasks.deep_view()),
        Err(e) => Err(e.deep_view()),
    }
}

/// Each element of a search's output as a [`Task`].
pub fn tasks_from_values(values: &Vec<Json>, kind: TaskKind, reason: InboxReason) -> (r: Vec<Task>)
    ensures
        r.deep_view() == tasks_of(values.deep_view(), kind, reason),
{
    let mut out: Vec<Task> = Vec::new();
    let mut i: usize = 0;
    while i < values.len()
        invariant
            i <= values@.len(),
            out@.len() == i,
            forall|k: int|
                0 <= k < i ==> (#[trigger] out@[k]).deep_view() == task_of(
                    values@[k].deep_view(),
                    kind,
                    reason,
                ),
        decreases values@.len() - i,
    {
        out.push(task_from_gh(&values[i], kind, reason));
        i += 1;
    }
    assert(out.deep_view() =~= tasks_of(values.deep_view(), kind, reason));
    out
}

/// Reads the output of one search.
pub fn parse_tasks(raw: &[u8], kind: TaskKind, reason: InboxReason) -> (r: Result<Vec<Task>, Error>)
    ensures
        tasks_view(r) == search_result(raw@, kind, reason),
{
    match parse_values(raw) {
        Ok(values) => Ok(tasks_from_values(&values, kind, reason)),
        Err(e) => Err(e),
    }
}

// ----------------------------------------------------------------------------
// The searches
// ----------------------------------------------------------------------------

/// One `gh search`: its arguments, and what its results are.
#[derive(Debug)]
pub struct Search {
    pub args: Vec<String>,
    pub kind: TaskKind,
    pub reason: InboxReason,
}

pub struct SearchView {
    pub args: Seq<Seq<char>>,
    pub kind: TaskKind,
    pub reason: InboxReason,
}

impl DeepView for Search {
    type V = SearchView;

    open spec fn deep_view(&self) -> SearchView {
        SearchView { args: self.args.deep_view(), kind: self.kind, reason: self.reason }
    }
}

pub open spec fn search_words(
    what: Seq<char>,
    filter: Seq<Seq<char>>,
    fields: Seq<char>,
) -> Seq<Seq<char>> {
    seq!["search"@, what] + filter + seq!["--state"@, "open"@, "--json"@, fields]
}

/// Arguments for one `gh search` invocation: the shared `--state open` and
/// `--json` tail with the caller's filter (`--involves @me`, `--owner <login>`,
/// `--review-requested @me`) spliced in.
pub fn search_args(what: &str, filter: &[&str], fields: &str) -> (args: Vec<String>)
    ensures
        args.deep_view() == search_words(what@, filter.deep_view(), fields@),
{
    let mut args: Vec<String> = Vec::new();
    args.push("search".to_owned());
    args.push(what.to_owned());
    let mut i: usize = 0;
    assert(args.deep_view() =~= seq!["search"@, what@] + filter.deep_view().take(0));
    while i < filter.len()
        invariant
            i <= filter@.len(),
            args.deep_view() == seq!["search"@, what@] + filter.deep_view().take(i as int),
        decreases filter@.len() - i,
    {
        let ghost before = args.deep_view();
        args.push(filter[i].to_owned());
        assert(args.deep_view() =~= before.push(filter@[i as int]@));
        assert(filter.deep_view().take(i + 1) =~= filter.deep_view().take(i as int).push(
            filter@[i as int]@,
        ));
        assert(args.deep_view() =~= seq!["search"@, what@] + filter.deep_view().take(i + 1));
        i += 1;
    }
    let ghost before = args.deep_view();
    assert(filter.deep_view().take(filter@.len() as int) =~= filter.deep_view());
    args.push("--state".to_owned());
    args.push("open".to_owned());
    args.push("--json".to_owned());
    args.push(fields.to_owned());
    assert(args.deep_view() =~= before + seq!["--state"@, "open"@, "--json"@, fields@]);
    args
}

pub const ISSUE_FIELDS: &'static str = "number,title,state,repository,assignees,createdAt,updatedAt,url";

pub const PR_FIELDS: &'static str =
    "number,title,state,repository,assignees,createdAt,updatedAt,url,isDraft";

/// The searches that make up my list for `login`: the issues I am involved in and
/// those in my repositories, then the pull requests whose review is requested
/// from me, those I am involved in and those in my repositories.
pub open spec fn searches_for(login: Seq<char>) -> Seq<SearchView> {
    seq![
        SearchView {
            args: search_words("issues"@, seq!["--involves"@, "@me"@], ISSUE_FIELDS@),
            kind: TaskKind::Issue,
            reason: InboxReason::Involved,
        },
        SearchView {
            args: search_words("issues"@, seq!["--owner"@, login], ISSUE_FIELDS@),
            kind: TaskKind::Issue,
            reason: InboxReason::Own,
        },
        SearchView {
            args: search_words("prs"@, seq!["--review-requested"@, "@me"@], PR_FIELDS@),
            kind: TaskKind::PullRequest,
            reason: InboxReason::ReviewRequested,
        },
        SearchView {
            args: search_words("prs"@, seq!["--involves"@, "@me"@], PR_FIELDS@),
            kind: TaskKind::PullRequest,
            reason: InboxReason::Involved,
        },
        SearchView {
            args: search_words("prs"@, seq!["--owner"@, login], PR_FIELDS@),
            kind: TaskKind::PullRequest,
            reason: InboxReason::Own,
        },
    ]
}

fn search(
    what: &str,
    option: &str,
    value: &str,
    fields: &str,
    kind: TaskKind,
    reason: InboxReason,
) -> (s: Search)
    ensures
        s.deep_view() == (SearchView {
            args: search_words(what@, seq![option@, value@], fields@),
            kind,
            reason,
        }),
{
    let filter = [option, value];
    assert(filter.deep_view() =~= seq![option@, value@]);
    let args = search_args(what, filter.as_slice(), fields);
    Search { args, kind, reason }
}

/// The searches that make up my list, the more specific ones before the broader
/// ones so that their reason wins where an item turns up in several.
pub fn task_searches(login: &str) -> (r: Vec<Search>)
    ensures
        r.deep_view() == searches_for(login@),
{
    let mut out: Vec<Search> = Vec::new();
    out.push(
        search("issues", "--involves", "@me", ISSUE_FIELDS, TaskKind::Issue, InboxReason::Involved),
    );
    out.push(search("issues", "--owner", login, ISSUE_FIELDS, TaskKind::Issue, InboxReason::Own));
    out.push(
        search(
            "prs",
            "--review-requested",
            "@me",
            PR_FIELDS,
            TaskKind::PullRequest,
            InboxReason::ReviewRequested,
        ),
    );
    out.push(
        search(
            "prs",
            "--involves",
            "@me",
            PR_FIELDS,
            TaskKind::PullRequest,
            InboxReason::Involved,
        ),
    );
    out.push(
        search("prs", "--owner", login, PR_FIELDS, TaskKind::PullRequest, InboxReason::Own),
    );
    assert(out.deep_view() =~= searches_for(login@));
    out
}

/// The arguments of each search.
pub open spec fn search_calls(searches: Seq<SearchView>) -> Seq<Seq<Seq<char>>> {
    Seq::new(searches.len(), |i: int| searches[i].args)
}

/// The calls to hand out for the searches.
pub fn calls_of(searches: &Vec<Search>) -> (calls: Vec<Vec<String>>)
    ensures
        calls.deep_view() == search_calls(searches.deep_view()),
{
    let mut calls: Vec<Vec<String>> = Vec::new();
    let mut i: usize = 0;
    while i < searches.len()
        invariant
            i <= searches@.len(),
            calls@.len() == i,
            forall|k: int|
                0 <= k < i ==> (#[trigger] calls@[k]).deep_view() == searches@[k].args.deep_view(),
        decreases searches@.len() - i,
    {
        let args = copy_words(&searches[i].args);
        calls.push(args);
        i += 1;
    }
    assert(calls.deep_view() =~= search_calls(searches.deep_view()));
    calls
}

fn copy_words(words: &Vec<String>) -> (r: Vec<String>)
    ensures
        r.deep_view() == words.deep_view(),
{
    let mut out: Vec<String> = Vec::new();
    let mut i: usize = 0;
    while i < words.len()
        invariant
            i <= words@.len(),
            out@.len() == i,
            forall|k: int| 0 <= k < i ==> (#[trigger] out@[k])@ == words@[k]@,
        decreases words@.len() - i,
    {
        out.push(words[i].clone());
        i += 1;
    }
    assert(out.deep_view() =~= words.deep_view());
    out
}

// ----------------------------------------------------------------------------
// Merging
// ----------------------------------------------------------------------------

/// The tasks of the first `n` answers, search by search, or the error of the
/// first search that has none.
pub open spec fn gathered(
    answers: Seq<Result<Seq<u8>, ErrorView>>,
    searches: Seq<SearchView>,
    n: nat,
) -> Result<Seq<TaskView>, ErrorView>
    decreases n,
{
    if n == 0 {
        Ok(Seq::empty())
    } else {
        let i = (n - 1) as int;
        match gathered(answers, searches, (n - 1) as nat) {
            Err(e) => Err(e),
            Ok(tasks) => match answers[i] {
                Err(e) => Err(e),
                Ok(raw) => match search_result(raw, searches[i].kind, searches[i].reason) {
                    Err(e) => Err(e),
                    Ok(more) => Ok(tasks + more),
                },
            },
        }
    }
}

pub open spec fn lesser(a: nat, b: nat) -> nat {
    if a <= b {
        a
    } else {
        b
    }
}

/// Whether the task's repository belongs to `login`.
pub open spec fn owned_by(t: TaskView, login: Seq<char>) -> bool {
    match t.project {
        Some(project) => before_first(project, '/') == login,
        None => false,
    }
}

pub open spec fn marked(tasks: Seq<TaskView>, login: Seq<char>) -> Seq<TaskView> {
    Seq::new(tasks.len(), |i: int| TaskView { mine: owned_by(tasks[i], login), ..tasks[i] })
}

/// What tells one task from another: its display id, or its link without one.
pub open spec fn key_of(t: TaskView) -> Seq<char> {
    if t.display.len() == 0 {
        or_empty(t.url)
    } else {
        t.display
    }
}

pub open spec fn has_task(tasks: Seq<TaskView>, key: Seq<char>) -> bool {
    exists|i: int| 0 <= i < tasks.len() && key_of(#[trigger] tasks[i]) == key
}

/// The tasks whose key no earlier task has, in their order.
pub open spec fn deduped(tasks: Seq<TaskView>) -> Seq<TaskView>
    decreases tasks.len(),
{
    if tasks.len() == 0 {
        Seq::empty()
    } else {
        let head = deduped(tasks.drop_last());
        if has_task(tasks.drop_last(), key_of(tasks.last())) {
            head
        } else {
            head.push(tasks.last())
        }
    }
}

/// My list, from what the searches came back with.
pub open spec fn task_list(
    answers: Seq<Result<Seq<u8>, ErrorView>>,
    login: Seq<char>,
) -> Result<Seq<TaskView>, ErrorView> {
    let searches = searches_for(login);
    match gathered(answers, searches, lesser(answers.len(), searches.len())) {
        Ok(tasks) => Ok(deduped(marked(tasks, login))),
        Err(e) => Err(e),
    }
}

/// A task is left in the list under each key that the list had.
pub proof fn lemma_deduped_keys(tasks: Seq<TaskView>, key: Seq<char>)
    ensures
        has_task(deduped(tasks), key) == has_task(tasks, key),
    decreases tasks.len(),
{
    if tasks.len() > 0 {
        let front = tasks.drop_last();
        let head = deduped(front);
        lemma_deduped_keys(front, key);
        if has_task(tasks, key) {
            let i = choose|i: int| 0 <= i < tasks.len() && key_of(#[trigger] tasks[i]) == key;
            if i < front.len() {
                assert(front[i] == tasks[i]);
                let j = choose|j: int| 0 <= j < head.len() && key_of(#[trigger] head[j]) == key;
                assert(deduped(tasks)[j] == head[j]);
            } else if !has_task(front, key) {
                assert(deduped(tasks)[head.len() as int] == tasks[i]);
            } else {
                let j = choose|j: int| 0 <= j < head.len() && key_of(#[trigger] head[j]) == key;
                assert(deduped(tasks)[j] == head[j]);
            }
        }
        if has_task(deduped(tasks), key) {
            let d = deduped(tasks);
            let j = choose|j: int| 0 <= j < d.len() && key_of(#[trigger] d[j]) == key;
            if j < head.len() {
                assert(head[j] == d[j]);
                let i = choose|i: int| 0 <= i < front.len() && key_of(#[trigger] front[i]) == key;
                assert(tasks[i] == front[i]);
            } else {
                assert(tasks[tasks.len() - 1] == d[j]);
            }
        }
    }
}

fn key_text(t: &Task) -> (key: String)
    ensures
        key@ == key_of(t.deep_view()),
{
    if t.id.display.as_str().is_empty() {
        match &t.url {
            Some(url) => url.clone(),
            None => String::new(),
        }
    } else {
        t.id.display.clone()
    }
}

/// Drop duplicate tasks that surfaced from more than one search, keeping the
/// first occurrence. Keyed by the display id (`owner/repo#N`), falling back to
/// `url` when it is empty. Ordering matters: the searches are run most-specific
/// reason first (review-requested before involves), so the kept copy carries the
/// most useful "why it's in my list" reason.
pub fn dedup_by_id(tasks: Vec<Task>) -> (r: Vec<Task>)
    ensures
        r.deep_view() == deduped(tasks.deep_view()),
{
    let mut out: Vec<Task> = Vec::new();
    let ghost all = tasks.deep_view();
    for t in it: tasks
        invariant
            all == tasks.deep_view(),
            it.seq() == tasks@,
            out.deep_view() == deduped(all.take(it.index())),
    {
        let ghost front = all.take(it.index());
        proof {
            assert(all.take(it.index() + 1).drop_last() =~= front);
            assert(all.take(it.index() + 1).last() == t.deep_view());
            lemma_deduped_keys(front, key_of(t.deep_view()));
        }
        let ghost before = out.deep_view();
        if !holds_key(&out, &t) {
            out.push(t);
            assert(out.deep_view() =~= before.push(t.deep_view()));
        }
    }
    assert(all.take(all.len() as int) =~= all);
    out
}

fn holds_key(tasks: &Vec<Task>, t: &Task) -> (r: bool)
    ensures
        r == has_task(tasks.deep_view(), key_of(t.deep_view())),
{
    let key = key_text(t);
    let ghost shown = tasks.deep_view();
    let mut i: usize = 0;
    while i < tasks.len()
        invariant
            shown == tasks.deep_view(),
            key@ == key_of(t.deep_view()),
            i <= tasks@.len(),
            forall|k: int| 0 <= k < i ==> key_of(#[trigger] shown[k]) != key@,
        decreases tasks@.len() - i,
    {
        let other = key_text(&tasks[i]);
        if same_text(other.as_str(), key.as_str()) {
            assert(key_of(shown[i as int]) == key@);
            return true;
        }
        assert(key_of(shown[i as int]) != key@);
        i += 1;
    }
    false
}

/// Mark the tasks in repositories that `login` owns, by the owner in the
/// project's `owner/repo`.
pub fn mark_mine(tasks: Vec<Task>, login: &str) -> (r: Vec<Task>)
    ensures
        r.deep_view() == marked(tasks.deep_view(), login@),
{
    let mut out: Vec<Task> = Vec::new();
    let ghost all = tasks.deep_view();
    for t in it: tasks
        invariant
            all == tasks.deep_view(),
            it.seq() == tasks@,
            out@.len() == it.index(),
            forall|k: int|
                0 <= k < out@.len() ==> (#[trigger] out@[k]).deep_view() == (TaskView {
                    mine: owned_by(all[k], login@),
                    ..all[k]
                }),
    {
        let ghost shown = t.deep_view();
        assert(all[it.index()] == shown);
        let mine: bool = match &t.project {
            Some(project) => {
                let owner = first_segment(project.as_str(), '/');
                same_text(owner, login)
            },
            None => false,
        };
        let mut t = t;
        t.mine = mine;
        assert(t.deep_view() == (TaskView { mine: owned_by(shown, login@), ..shown }));
        out.push(t);
    }
    assert(out.deep_view() =~= marked(all, login@));
    out
}

/// The tasks of all searches, search by search.
pub fn gather_tasks(answers: Vec<Result<Vec<u8>, Error>>, searches: &Vec<Search>) -> (r: Result<
    Vec<Task>,
    Error,
>)
    ensures
        tasks_view(r) == gathered(
            answers_view(answers@),
            searches.deep_view(),
            lesser(answers@.len(), searches@.len()),
        ),
{
    let mut out: Vec<Task> = Vec::new();
    let mut n: usize = 0;
    let ghost given = answers_view(answers@);
    let ghost wanted = searches.deep_view();
    let ghost total = lesser(answers@.len(), searches@.len());
    assert(out.deep_view() =~= Seq::<TaskView>::empty());
    for answer in it: answers
        invariant
            given == answers_view(answers@),
            wanted == searches.deep_view(),
            total == lesser(answers@.len(), searches@.len()),
            it.seq() == answers@,
            n == lesser(it.index() as nat, searches@.len()),
            gathered(given, wanted, n as nat) == Ok::<Seq<TaskView>, ErrorView>(out.deep_view()),
    {
        if n < searches.len() {
            let ghost before = out.deep_view();
            assert(given[n as int] == answer_view(answer));
            assert(wanted[n as int] == searches@[n as int].deep_view());
            match answer {
                Err(e) => {
                    proof {
                        assert(gathered(given, wanted, (n + 1) as nat) == Err::<
                            Seq<TaskView>,
                            ErrorView,
                        >(e.deep_view()));
                        lemma_gathered_error(given, wanted, (n + 1) as nat, total);
                    }
                    return Err(e);
                },
                Ok(raw) => match parse_tasks(raw.as_slice(), searches[n].kind, searches[n].reason) {
                    Err(e) => {
                        proof {
                            assert(gathered(given, wanted, (n + 1) as nat) == Err::<
                                Seq<TaskView>,
                                ErrorView,
                            >(e.deep_view()));
                            lemma_gathered_error(given, wanted, (n + 1) as nat, total);
                        }
                        return Err(e);
                    },
                    Ok(more) => {
                        let mut more = more;
                        let ghost added = more.deep_view();
                        out.append(&mut more);
                        assert(out.deep_view() =~= before + added);
                    },
                },
            }
            n += 1;
        }
    }
    Ok(out)
}

/// Once a search has failed, so has the whole.
pub proof fn lemma_gathered_error(
    answers: Seq<Result<Seq<u8>, ErrorView>>,
    searches: Seq<SearchView>,
    n: nat,
    m: nat,
)
    requires
        n <= m,
        gathered(answers, searches, n) is Err,
    ensures
        gathered(answers, searches, m) == gathered(answers, searches, n),
    decreases m - n,
{
    if n < m {
        lemma_gathered_error(answers, searches, n, (m - 1) as nat);
    }
}

/// My list, from what the searches came back with: the tasks of all searches,
/// those in my own repositories marked, each item once.
pub fn tasks_from_answers(answers: Vec<Result<Vec<u8>, Error>>, login: &str) -> (r: Result<
    Vec<Task>,
    Error,
>)
    ensures
        tasks_view(r) == task_list(answers_view(answers@), login@),
{
    let searches = task_searches(login);
    match gather_tasks(answers, &searches) {
        Ok(tasks) => Ok(dedup_by_id(mark_mine(tasks, login))),
        Err(e) => Err(e),
    }
}

}
