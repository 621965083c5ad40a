//! The GitHub backend: my tasks and notifications through a [`GhRunner`], and
//! marking notifications read.
//!
//! What outlives one backend, the logins and the run lists read so far, is handed
//! in by the caller, who keeps it for the life of the process.
use crate::clock::Instant;
use crate::entities::{Notification, NotificationView, Task, TaskView};
use crate::error::{answer_view, answers_view, Error, ErrorView};
use crate::json::{Json, JsonView};
use crate::map::{ascending, map_of, TextMap};
use crate::notifications::{
    inbox_of, notifications_view, parse_notifications, unread_count, unread_of,
};
use crate::runner::{
    account_key, answers_batch, answers_key, answers_run, ask, ask_all, ask_login,
    login_from_answer, login_in, login_words, text_view, GhRunner,
};
use crate::snapshots::{
    linked, linked_inbox, newest_of, refreshed_runs, runs_calls, runs_taken, served, stale,
    CachedRunsView, RunsCache,
};
use crate::tasks::{
    calls_of, search_calls, searches_for, task_list, task_searches, tasks_from_answers,
    tasks_view,
};
use crate::text::{decimal, decimal_text};
use vstd::prelude::*;
use vstd::string::*;

verus! {

/// Login per account, filled on first lookup.
pub type LoginCache = TextMap<String>;

// ----------------------------------------------------------------------------
// What each operation does
// ----------------------------------------------------------------------------

/// The logins with the outcome of a lookup kept for the account, where there is
/// an account and a login.
pub open spec fn remembered(
    logins: Map<Seq<char>, Seq<char>>,
    key: Option<Seq<char>>,
    login: Result<Seq<char>, ErrorView>,
) -> Map<Seq<char>, Seq<char>> {
    match (key, login) {
        (Some(k), Ok(login)) => logins.insert(k, login),
        _ => logins,
    }
}

/// Whether no login is kept for the account, or there is no account to keep one
/// for.
pub open spec fn login_missing(
    key: Option<Seq<char>>,
    logins: Map<Seq<char>, Seq<char>>,
) -> bool {
    match key {
        Some(k) => !logins.dom().contains(k),
        None => true,
    }
}

/// A login lookup under an account key: a login kept for the account is given
/// back as it is; otherwise `gh` is asked, and its answer is kept.
pub open spec fn login_step<R: GhRunner>(
    runner: &R,
    key: Option<Seq<char>>,
    before: Map<Seq<char>, Seq<char>>,
    after: Map<Seq<char>, Seq<char>>,
    login: Result<Seq<char>, ErrorView>,
) -> bool {
    if !login_missing(key, before) {
        &&& login == Ok::<Seq<char>, ErrorView>(before[key->0])
        &&& after == before
    } else {
        &&& after == remembered(before, key, login)
        &&& exists|answer: Result<Vec<u8>, Error>| #[trigger]
            answers_run(runner, login_words(), answer) && login == login_in(answer_view(answer))
    }
}

/// My list, once the login has been looked up: the lookup's error, or what one
/// batch of the searches for that login comes back with.
pub open spec fn search_step<R: GhRunner>(
    runner: &R,
    login: Result<Seq<char>, ErrorView>,
    result: Result<Seq<TaskView>, ErrorView>,
) -> bool {
    match login {
        Err(e) => result == Err::<Seq<TaskView>, ErrorView>(e),
        Ok(name) => exists|answers: Vec<Result<Vec<u8>, Error>>| #[trigger]
            answers_batch(runner, search_calls(searches_for(name)), answers) && result
                == task_list(answers_view(answers@), name),
    }
}

/// The run lists for the repositories in `newest` under an account key at `now`:
/// those that the cache still answers for come from it, the others from one batch
/// of calls, whose answers are kept.
pub open spec fn runs_step<R: GhRunner>(
    runner: &R,
    newest: Seq<(Seq<char>, Seq<char>)>,
    key: Option<Seq<char>>,
    now: (int, int),
    before: Map<(Seq<char>, Seq<char>), CachedRunsView>,
    after: Map<(Seq<char>, Seq<char>), CachedRunsView>,
    runs: Map<Seq<char>, Seq<JsonView>>,
) -> bool {
    let missing = stale(newest, before, key, now);
    if missing.len() == 0 {
        &&& runs == served(newest, before, key, now)
        &&& after == before
    } else {
        exists|answers: Vec<Result<Vec<u8>, Error>>| #[trigger]
            answers_batch(runner, runs_calls(missing), answers) && runs_taken(
                newest,
                key,
                now,
                before,
                after,
                runs,
                answers_view(answers@),
            )
    }
}

/// The notifications with their CI links resolved: as they are when none is about
/// CI; otherwise by the run lists of the repositories concerned, at the present time
/// by the machine's clock and under the runner's account key.
pub open spec fn link_step<R: GhRunner>(
    runner: &R,
    items: Seq<NotificationView>,
    before: Map<(Seq<char>, Seq<char>), CachedRunsView>,
    after: Map<(Seq<char>, Seq<char>), CachedRunsView>,
    result: Seq<NotificationView>,
) -> bool {
    if newest_of(items) == Map::<Seq<char>, Seq<char>>::empty() {
        &&& result == items
        &&& after == before
    } else {
        exists|
            newest: Seq<(Seq<char>, Seq<char>)>,
            key: Option<Seq<char>>,
            now: Instant,
            runs: Map<Seq<char>, Seq<JsonView>>,
        |
            {
                &&& ascending(newest)
                &&& map_of(newest) == newest_of(items)
                &&& answers_key(runner, key)
                &&& call_ensures(Instant::now, (), now)
                &&& #[trigger] runs_step(runner, newest, key, now@, before, after, runs)
                &&& result == linked(items, runs)
            }
    }
}

pub open spec fn inbox_words() -> Seq<Seq<char>> {
    seq!["api"@, "notifications?all=true"@]
}

pub open spec fn mark_one_words(id: int) -> Seq<Seq<char>> {
    seq!["api"@, "-X"@, "PATCH"@, "notifications/threads/"@ + decimal(id)]
}

pub open spec fn mark_all_words() -> Seq<Seq<char>> {
    seq!["api"@, "-X"@, "PUT"@, "notifications"@]
}

/// The inbox in an answer to [`inbox_words`].
pub open spec fn inbox_in(answer: Result<Seq<u8>, ErrorView>) -> Result<
    Seq<NotificationView>,
    ErrorView,
> {
    match answer {
        Ok(raw) => inbox_of(raw),
        Err(e) => Err(e),
    }
}

/// A call whose output does not matter.
pub open spec fn done_in(answer: Result<Seq<u8>, ErrorView>) -> Result<(), ErrorView> {
    match answer {
        Ok(_) => Ok(()),
        Err(e) => Err(e),
    }
}

pub open spec fn unit_view(r: Result<(), Error>) -> Result<(), ErrorView> {
    match r {
        Ok(_) => Ok(()),
        Err(e) => Err(e.deep_view()),
    }
}

/// The number of notifications that were unread, by how marking them went.
pub open spec fn marked_count(
    items: Seq<NotificationView>,
    answer: Result<Seq<u8>, ErrorView>,
) -> Result<nat, ErrorView> {
    match answer {
        Ok(_) => Ok(unread_of(items)),
        Err(e) => Err(e),
    }
}

pub open spec fn count_view(r: Result<u64, Error>) -> Result<nat, ErrorView> {
    match r {
        Ok(n) => Ok(n as nat),
        Err(e) => Err(e.deep_view()),
    }
}

// ----------------------------------------------------------------------------
// When `gh` is asked
// ----------------------------------------------------------------------------

/// The login kept for the account `key`; otherwise the one that `ask` answers a
/// login lookup with, which is then kept for the account. `ask` is called only
/// where no login is kept, so only there does it have to be callable.
pub fn cached_login<F: FnOnce() -> Result<Vec<u8>, Error>>(
    logins: &mut LoginCache,
    key: Option<String>,
    ask: F,
) -> (r: Result<String, Error>)
    requires
        old(logins).wf(),
        login_missing(key.deep_view(), old(logins)@) ==> call_requires(ask, ()),
    ensures
        final(logins).wf(),
        if login_missing(key.deep_view(), old(logins)@) {
            &&& final(logins)@ == remembered(old(logins)@, key.deep_view(), text_view(r))
            &&& exists|answer: Result<Vec<u8>, Error>| #[trigger]
                call_ensures(ask, (), answer) && text_view(r) == login_in(answer_view(answer))
        } else {
            &&& text_view(r) == Ok::<Seq<char>, ErrorView>(old(logins)@[key.deep_view()->0])
            &&& final(logins)@ == old(logins)@
        },
{
    if let Some(name) = &key {
        if let Some(login) = logins.get(name.as_str()) {
            return Ok(login.clone());
        }
    }
    let answer = ask();
    match login_from_answer(answer) {
        Ok(login) => {
            if let Some(name) = key {
                logins.insert(name, login.clone());
            }
            Ok(login)
        },
        Err(e) => Err(e),
    }
}

/// My list, once the login has been looked up: from what `search` answers the batch
/// of searches for the login with. After a failed lookup `search` is not called, so
/// only otherwise does it have to be callable, and only with those searches.
pub fn searched_tasks<F: FnOnce(&Vec<Vec<String>>) -> Vec<Result<Vec<u8>, Error>>>(
    login: Result<String, Error>,
    search: F,
) -> (r: Result<Vec<Task>, Error>)
    requires
        login matches Ok(name) ==> forall|calls: &Vec<Vec<String>>|
            calls.deep_view() == search_calls(searches_for(name@)) ==> #[trigger] call_requires(
                search,
                (calls,),
            ),
    ensures
        match login {
            Err(e) => tasks_view(r) == Err::<Seq<TaskView>, ErrorView>(e.deep_view()),
            Ok(name) => exists|calls: &Vec<Vec<String>>, answers: Vec<Result<Vec<u8>, Error>>|
                calls.deep_view() == search_calls(searches_for(name@)) && #[trigger] call_ensures(
                    search,
                    (calls,),
                    answers,
                ) && tasks_view(r) == task_list(answers_view(answers@), name@),
        },
{
    match login {
        Err(e) => Err(e),
        Ok(name) => {
            // The searches are independent, so they go out as one batch. Their order
            // still decides priority: the more specific search precedes the broader
            // one, so its reason wins where an item turns up in both.
            let searches = task_searches(name.as_str());
            let calls = calls_of(&searches);
            let answers = search(&calls);
            tasks_from_answers(answers, name.as_str())
        },
    }
}

/// How many notifications `list` holds unread, once `mark` has marked them read.
/// Nothing but these two is called: `list` first, and `mark` only where `list` gave
/// the notifications, so only there does it have to be callable.
pub fn count_and_mark<
    L: FnOnce() -> Result<Vec<Notification>, Error>,
    M: FnOnce() -> Result<Vec<u8>, Error>,
>(list: L, mark: M) -> (r: Result<u64, Error>)
    requires
        call_requires(list, ()),
        forall|inbox: Result<Vec<Notification>, Error>| #[trigger]
            call_ensures(list, (), inbox) && inbox is Ok ==> call_requires(mark, ()),
    ensures
        exists|inbox: Result<Vec<Notification>, Error>| #[trigger]
            call_ensures(list, (), inbox) && match inbox {
                Err(e) => count_view(r) == Err::<nat, ErrorView>(e.deep_view()),
                Ok(items) => exists|answer: Result<Vec<u8>, Error>| #[trigger]
                    call_ensures(mark, (), answer) && count_view(r) == marked_count(
                        items.deep_view(),
                        answer_view(answer),
                    ),
            },
{
    match list() {
        Err(e) => Err(e),
        Ok(items) => {
            let count: u64 = unread_count(&items);
            match mark() {
                Ok(_) => Ok(count),
                Err(e) => Err(e),
            }
        },
    }
}

// ----------------------------------------------------------------------------
// The backend
// ----------------------------------------------------------------------------

/// GitHub backend over a [`GhRunner`]: reads tasks/notifications and marks
/// notifications read.
pub struct GithubBackend<R: GhRunner> {
    runner: R,
}

impl<R: GhRunner> GithubBackend<R> {
    /// The runner that the backend asks.
    pub closed spec fn asks(&self) -> R {
        self.runner
    }

    pub fn new(runner: R) -> (b: Self)
        ensures
            b.asks() == runner,
    {
        GithubBackend { runner }
    }

    /// The authenticated user's login, for owner-scoped searches (`gh search`
    /// takes a concrete login for `--owner`, not `@me`). Kept per account: the
    /// login cannot change without re-authenticating `gh`, and the lookup is a
    /// network round-trip on every poll otherwise. A runner without a
    /// [`GhRunner::cache_key`] (every fake) always asks.
    pub fn my_login(&self, logins: &mut LoginCache) -> (r: Result<String, Error>)
        requires
            old(logins).wf(),
        ensures
            final(logins).wf(),
            exists|key: Option<Seq<char>>|
                answers_key(&self.asks(), key) && #[trigger] login_step(
                    &self.asks(),
                    key,
                    old(logins)@,
                    final(logins)@,
                    text_view(r),
                ),
    {
        let key = account_key(&self.runner);
        let ghost k = key.deep_view();
        let runner = &self.runner;
        let ask = || -> (answer: Result<Vec<u8>, Error>)
            ensures
                answers_run(runner, login_words(), answer),
            { ask_login(runner) };
        let r = cached_login(logins, key, ask);
        assert(login_step(&self.asks(), k, old(logins)@, logins@, text_view(r)));
        r
    }

    /// Everything on GitHub that needs my attention, aggregated and de-duplicated:
    /// issues/PRs I'm involved in (author, assignee, mention, comment), PRs whose
    /// review is requested from me, and everything open in my own repositories.
    /// The same item surfacing in several searches is collapsed by `id`.
    pub fn list_my_tasks(&self, logins: &mut LoginCache) -> (r: Result<Vec<Task>, Error>)
        requires
            old(logins).wf(),
        ensures
            final(logins).wf(),
            exists|key: Option<Seq<char>>, login: Result<Seq<char>, ErrorView>|
                answers_key(&self.asks(), key) && #[trigger] login_step(
                    &self.asks(),
                    key,
                    old(logins)@,
                    final(logins)@,
                    login,
                ) && search_step(&self.asks(), login, tasks_view(r)),
    {
        let found = self.my_login(logins);
        let ghost login = text_view(found);
        let runner = &self.runner;
        let search = |calls: &Vec<Vec<String>>| -> (answers: Vec<Result<Vec<u8>, Error>>)
            ensures
                answers_batch(runner, calls.deep_view(), answers),
            { ask_all(runner, calls) };
        let r = searched_tasks(found, search);
        assert(search_step(&self.asks(), login, tasks_view(r)));
        r
    }

    /// My GitHub notifications, normalized. Fetches read ones too (`all=true`) so
    /// the dashboard can triage handled from pending; each item carries a `read`
    /// flag for the client to filter on.
    pub fn list_notifications(&self, cache: &mut RunsCache) -> (r: Result<
        Vec<Notification>,
        Error,
    >)
        requires
            old(cache).wf(),
        ensures
            final(cache).wf(),
            exists|inbox: Result<Vec<u8>, Error>| #[trigger]
                answers_run(&self.asks(), inbox_words(), inbox) && match inbox_in(
                    answer_view(inbox),
                ) {
                    Err(e) => notifications_view(r) == Err::<Seq<NotificationView>, ErrorView>(e) && final(cache)@
                        == old(cache)@,
                    Ok(items) => r is Ok && link_step(
                        &self.asks(),
                        items,
                        old(cache)@,
                        final(cache)@,
                        r->Ok_0.deep_view(),
                    ),
                },
    {
        match self.notifications_plain() {
            Err(e) => Err(e),
            Ok(items) => Ok(self.link_check_suite_runs(items, cache)),
        }
    }

    /// The same list without resolving CI links. Callers that only need the items
    /// themselves (counting unread, say) take this: resolving costs one Actions
    /// call per repository with a CI notification and buys nothing when no link is
    /// displayed.
    pub fn notifications_plain(&self) -> (r: Result<Vec<Notification>, Error>)
        ensures
            exists|inbox: Result<Vec<u8>, Error>| #[trigger]
                answers_run(&self.asks(), inbox_words(), inbox) && notifications_view(r)
                    == inbox_in(answer_view(inbox)),
    {
        let args = ["api", "notifications?all=true"];
        assert(args.deep_view() =~= inbox_words());
        let inbox = ask(&self.runner, args.as_slice());
        assert(answers_run(&self.asks(), inbox_words(), inbox));
        match inbox {
            Err(e) => Err(e),
            Ok(raw) => parse_notifications(raw.as_slice()),
        }
    }

    /// Upgrade each CI (CheckSuite) notification's link from the repository Actions
    /// page to the specific workflow run it refers to. The notification carries no
    /// run id, so the run is matched by the workflow name and branch parsed from
    /// the title and the run whose `updated_at` is closest to the notification's.
    /// Best-effort: a repository whose runs cannot be fetched keeps the
    /// Actions-page fallback, and a notification with no confident match is left
    /// unchanged.
    pub fn link_check_suite_runs(&self, items: Vec<Notification>, cache: &mut RunsCache) -> (r: Vec<
        Notification,
    >)
        requires
            old(cache).wf(),
        ensures
            final(cache).wf(),
            link_step(
                &self.asks(),
                items.deep_view(),
                old(cache)@,
                final(cache)@,
                r.deep_view(),
            ),
    {
        let read = |newest: &TextMap<String>, c: &mut RunsCache| -> (runs: TextMap<Vec<Json>>)
            requires
                old(c).wf(),
            ensures
                runs.wf(),
                final(c).wf(),
                exists|key: Option<Seq<char>>, now: Instant|
                    answers_key(&self.asks(), key) && call_ensures(Instant::now, (), now)
                        && #[trigger] runs_step(
                        &self.asks(),
                        newest.listed(),
                        key,
                        now@,
                        old(c)@,
                        final(c)@,
                        runs@,
                    ),
            { self.recent_runs_for(newest, c) };
        let ghost shown = items.deep_view();
        let r = linked_inbox(items, cache, read);
        proof {
            if newest_of(shown) != Map::<Seq<char>, Seq<char>>::empty() {
                let (newest, c, runs) = choose|
                    newest: &TextMap<String>,
                    c: &mut RunsCache,
                    runs: TextMap<Vec<Json>>,
                |
                    {
                        &&& newest.wf()
                        &&& newest@ == newest_of(shown)
                        &&& *c == *old(cache)
                        &&& *final(c) == *cache
                        &&& #[trigger] call_ensures(read, (newest, c), runs)
                        &&& r.deep_view() == linked(shown, runs@)
                    };
                newest.lemma_listed();
            }
        }
        r
    }

    /// Recent workflow runs for each repository in `newest` (repository to latest
    /// CI notification timestamp). Repositories whose cached list is still valid
    /// are served from the cache; the rest are fetched in one batch, so a wide
    /// inbox costs one wave of concurrent calls instead of one round-trip per
    /// repository. A repository whose call or parse fails is simply absent from
    /// the result, leaving its notifications on the Actions-page fallback.
    pub fn recent_runs_for(&self, newest: &TextMap<String>, cache: &mut RunsCache) -> (runs:
        TextMap<Vec<Json>>)
        requires
            old(cache).wf(),
        ensures
            runs.wf(),
            final(cache).wf(),
            exists|key: Option<Seq<char>>, now: Instant|
                answers_key(&self.asks(), key) && call_ensures(Instant::now, (), now)
                    && #[trigger] runs_step(
                    &self.asks(),
                    newest.listed(),
                    key,
                    now@,
                    old(cache)@,
                    final(cache)@,
                    runs@,
                ),
    {
        self.recent_runs_at(newest, cache, Instant::now())
    }

    /// [`GithubBackend::recent_runs_for`] at a given present time.
    pub fn recent_runs_at(
        &self,
        newest: &TextMap<String>,
        cache: &mut RunsCache,
        now: Instant,
    ) -> (runs: TextMap<Vec<Json>>)
        requires
            old(cache).wf(),
        ensures
            runs.wf(),
            final(cache).wf(),
            exists|key: Option<Seq<char>>|
                answers_key(&self.asks(), key) && #[trigger] runs_step(
                    &self.asks(),
                    newest.listed(),
                    key,
                    now@,
                    old(cache)@,
                    final(cache)@,
                    runs@,
                ),
    {
        let account = account_key(&self.runner);
        let ghost key = account.deep_view();
        let ghost before = cache@;
        let name: Option<&str> = match &account {
            Some(name) => Some(name.as_str()),
            None => None,
        };
        assert(name.deep_view() == key);
        let runner = &self.runner;
        let ask = |calls: &Vec<Vec<String>>| -> (answers: Vec<Result<Vec<u8>, Error>>)
            ensures
                answers_batch(runner, calls.deep_view(), answers),
            { ask_all(runner, calls) };
        let runs = refreshed_runs(newest, cache, name, now, ask);
        assert(runs_step(&self.asks(), newest.listed(), key, now@, before, cache@, runs@));
        runs
    }

    /// Mark one notification thread as read (`PATCH /notifications/threads/{id}`).
    /// There is no "mark unread" over the REST API, so read is one-way.
    pub fn mark_notification_read(&self, id: i64) -> (r: Result<(), Error>)
        ensures
            exists|answer: Result<Vec<u8>, Error>| #[trigger]
                answers_run(&self.asks(), mark_one_words(id as int), answer) && unit_view(r)
                    == done_in(answer_view(answer)),
    {
        let mut path: String = "notifications/threads/".to_owned();
        let number = decimal_text(id);
        path.append(number.as_str());
        let args = ["api", "-X", "PATCH", path.as_str()];
        assert(args.deep_view() =~= mark_one_words(id as int));
        let answer = ask(&self.runner, args.as_slice());
        assert(answers_run(&self.asks(), mark_one_words(id as int), answer));
        match answer {
            Ok(_) => Ok(()),
            Err(e) => Err(e),
        }
    }

    /// Mark every notification as read (`PUT /notifications`). Returns the number
    /// that were unread before the call, counted from the current list (GitHub's
    /// endpoint itself reports no count).
    pub fn mark_all_notifications_read(&self) -> (r: Result<u64, Error>)
        ensures
            exists|inbox: Result<Vec<u8>, Error>| #[trigger]
                answers_run(&self.asks(), inbox_words(), inbox) && match inbox_in(
                    answer_view(inbox),
                ) {
                    Err(e) => count_view(r) == Err::<nat, ErrorView>(e),
                    Ok(items) => exists|answer: Result<Vec<u8>, Error>| #[trigger]
                        answers_run(&self.asks(), mark_all_words(), answer) && count_view(r)
                            == marked_count(items, answer_view(answer)),
                },
    {
        let runner = &self.runner;
        let list = || -> (r: Result<Vec<Notification>, Error>)
            ensures
                exists|inbox: Result<Vec<u8>, Error>| #[trigger]
                    answers_run(runner, inbox_words(), inbox) && notifications_view(r)
                        == inbox_in(answer_view(inbox)),
            { self.notifications_plain() };
        let mark = || -> (answer: Result<Vec<u8>, Error>)
            ensures
                answers_run(runner, mark_all_words(), answer),
            {
                let args = ["api", "-X", "PUT", "notifications"];
                assert(args.deep_view() =~= mark_all_words());
                ask(runner, args.as_slice())
            };
        let r = count_and_mark(list, mark);
        proof {
            let listed = choose|inbox: Result<Vec<Notification>, Error>| #[trigger]
                call_ensures(list, (), inbox) && match inbox {
                    Err(e) => count_view(r) == Err::<nat, ErrorView>(e.deep_view()),
                    Ok(items) => exists|answer: Result<Vec<u8>, Error>| #[trigger]
                        call_ensures(mark, (), answer) && count_view(r) == marked_count(
                            items.deep_view(),
                            answer_view(answer),
                        ),
                };
            let inbox = choose|inbox: Result<Vec<u8>, Error>| #[trigger]
                answers_run(runner, inbox_words(), inbox) && notifications_view(listed)
                    == inbox_in(answer_view(inbox));
            assert(answers_run(&self.asks(), inbox_words(), inbox));
        }
        r
    }
}

}
