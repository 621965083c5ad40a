//! Run lists kept between polls: which of them still cover their repository's
//! notifications, which have to be read anew, and the links that follow.
use crate::clock::{instant_of, no_later, parse_ts, seconds_from, Instant};
use crate::entities::{NotifKind, NotifKindView, Notification, NotificationView};
use crate::error::{answer_view, answers_view, Error, ErrorView};
use crate::json::{copy_all, Json, JsonView};
use crate::map::{distinct, has_key, lemma_add, lemma_map_of, lemma_replace, map_of, TextMap};
use crate::runs::{match_run_url, parse_runs, run_page, runs_args, runs_in, runs_words};
use crate::tasks::{lesser, or_empty};
use crate::text::same_text;
use vstd::prelude::*;

verus! {

// ----------------------------------------------------------------------------
// Freshness
// ----------------------------------------------------------------------------

/// Upper bound on how long a cached run list is reused, regardless of the
/// freshness check below. Bounds staleness of everything the check cannot see
/// (a run renamed or deleted, say) without making the cache useless between
/// polls.
pub const RUNS_CACHE_TTL_SECS: i64 = 600;

/// Whether a run list read at `fetched` answers, at `now`, for a notification
/// updated at `updated`: it is young enough, and it was read no earlier than that.
pub open spec fn covers(
    fetched: (int, int),
    updated: Option<Seq<char>>,
    now: (int, int),
) -> bool {
    &&& seconds_from(now, fetched) < RUNS_CACHE_TTL_SECS
    &&& match updated {
        Some(s) => match instant_of(s) {
            Some(t) => no_later(t, fetched),
            None => false,
        },
        None => false,
    }
}

/// Whether a cached run list can answer for a notification updated at
/// `notif_updated`. Two conditions: the snapshot is younger than the TTL, and it
/// was taken *after* the notification was last updated, in which case the run
/// the notification refers to already existed when the snapshot was read, so
/// refetching cannot produce a different match. A notification timestamp that
/// does not parse is treated as unusable and forces a refetch.
pub fn runs_cache_is_fresh(
    fetched_at: Instant,
    notif_updated: Option<&str>,
    now: Instant,
) -> (r: bool)
    ensures
        r == covers(fetched_at@, notif_updated.deep_view(), now@),
{
    if now.seconds_since(&fetched_at) >= RUNS_CACHE_TTL_SECS {
        return false;
    }
    match notif_updated {
        Some(s) => match parse_ts(s) {
            Some(updated) => updated.is_no_later_than(&fetched_at),
            None => false,
        },
        None => false,
    }
}

// ----------------------------------------------------------------------------
// The cache
// ----------------------------------------------------------------------------

/// One repository's workflow runs as last read, with the instant they were read.
#[derive(Debug)]
pub struct CachedRuns {
    pub fetched_at: Instant,
    pub runs: Vec<Json>,
}

pub struct CachedRunsView {
    pub fetched_at: (int, int),
    pub runs: Seq<JsonView>,
}

impl DeepView for CachedRuns {
    type V = CachedRunsView;

    open spec fn deep_view(&self) -> CachedRunsView {
        CachedRunsView { fetched_at: self.fetched_at@, runs: self.runs.deep_view() }
    }
}

/// Two caches in one: for each repository the run list that was read last, the
/// second cache's where both were read at the same time.
pub open spec fn merged(
    ours: Map<(Seq<char>, Seq<char>), CachedRunsView>,
    theirs: Map<(Seq<char>, Seq<char>), CachedRunsView>,
) -> Map<(Seq<char>, Seq<char>), CachedRunsView> {
    Map::new(
        |k: (Seq<char>, Seq<char>)| ours.dom().contains(k) || theirs.dom().contains(k),
        |k: (Seq<char>, Seq<char>)|
            if theirs.dom().contains(k) && (ours.dom().contains(k) ==> no_later(
                ours[k].fetched_at,
                theirs[k].fetched_at,
            )) {
                theirs[k]
            } else {
                ours[k]
            },
    )
}

/// Workflow runs per account and repository.
pub struct RunsCache {
    entries: Vec<((String, String), CachedRuns)>,
}

impl View for RunsCache {
    type V = Map<(Seq<char>, Seq<char>), CachedRunsView>;

    closed spec fn view(&self) -> Map<(Seq<char>, Seq<char>), CachedRunsView> {
        map_of(self.entries.deep_view())
    }
}

impl RunsCache {
    spec fn listed(&self) -> Seq<((Seq<char>, Seq<char>), CachedRunsView)> {
        self.entries.deep_view()
    }

    pub closed spec fn wf(&self) -> bool {
        distinct(self.listed())
    }

    pub fn new() -> (c: RunsCache)
        ensures
            c.wf(),
            c@ == Map::<(Seq<char>, Seq<char>), CachedRunsView>::empty(),
    {
        let c = RunsCache { entries: Vec::new() };
        assert(c@ =~= Map::<(Seq<char>, Seq<char>), CachedRunsView>::empty());
        c
    }

    fn find(&self, account: &str, repo: &str) -> (r: Option<usize>)
        ensures
            match r {
                Some(i) => i < self.listed().len() && self.listed()[i as int].0 == (
                    account@,
                    repo@,
                ),
                None => !has_key(self.listed(), (account@, repo@)),
            },
    {
        let mut i: usize = 0;
        while i < self.entries.len()
            invariant
                i <= self.entries@.len(),
                forall|k: int| 0 <= k < i ==> (#[trigger] self.listed()[k]).0 != (account@, repo@),
            decreases self.entries@.len() - i,
        {
            let key = &self.entries[i].0;
            assert(self.listed()[i as int].0 == (key.0@, key.1@));
            if same_text(key.0.as_str(), account) && same_text(key.1.as_str(), repo) {
                return Some(i);
            }
            i += 1;
        }
        None
    }

    pub fn get(&self, account: &str, repo: &str) -> (r: Option<&CachedRuns>)
        requires
            self.wf(),
        ensures
            match r {
                Some(c) => self@.dom().contains((account@, repo@)) && self@[(account@, repo@)]
                    == c.deep_view(),
                None => !self@.dom().contains((account@, repo@)),
            },
    {
        match self.find(account, repo) {
            Some(i) => {
                proof {
                    lemma_map_of(self.listed(), i as int);
                }
                Some(&self.entries[i].1)
            },
            None => None,
        }
    }

    /// Keeps `cached` for a repository, in place of what was kept for it.
    pub fn insert(&mut self, account: &str, repo: &str, cached: CachedRuns)
        requires
            old(self).wf(),
        ensures
            final(self).wf(),
            final(self)@ == old(self)@.insert((account@, repo@), cached.deep_view()),
    {
        let ghost before = self.listed();
        let ghost key = (account@, repo@);
        let ghost value = cached.deep_view();
        let entry = ((account.to_owned(), repo.to_owned()), cached);
        match self.find(account, repo) {
            Some(i) => {
                self.entries.set(i, entry);
                proof {
                    assert(self.listed() =~= before.update(i as int, (key, value)));
                    lemma_replace(before, i as int, key, value);
                }
            },
            None => {
                self.entries.push(entry);
                proof {
                    assert(self.listed() =~= before.insert(before.len() as int, (key, value)));
                    lemma_add(before, before.len() as int, key, value);
                }
            },
        }
    }

    /// A cache with the same contents, to work with while others use this one.
    pub fn copy(&self) -> (c: RunsCache)
        requires
            self.wf(),
        ensures
            c.wf(),
            c@ == self@,
    {
        let mut entries: Vec<((String, String), CachedRuns)> = Vec::new();
        let mut i: usize = 0;
        while i < self.entries.len()
            invariant
                i <= self.entries@.len(),
                entries@.len() == i,
                forall|k: int|
                    0 <= k < i ==> (#[trigger] entries@[k]).deep_view() == self.listed()[k],
            decreases self.entries@.len() - i,
        {
            let entry = &self.entries[i];
            let runs = copy_all(&entry.1.runs);
            let cached = CachedRuns { fetched_at: entry.1.fetched_at, runs };
            entries.push(((entry.0.0.clone(), entry.0.1.clone()), cached));
            i += 1;
        }
        assert(entries.deep_view() =~= self.listed());
        RunsCache { entries }
    }

    /// Takes over what `other` read: for each repository the run list that was read
    /// last stays.
    pub fn merge(&mut self, other: RunsCache)
        requires
            old(self).wf(),
            other.wf(),
        ensures
            final(self).wf(),
            final(self)@ == merged(old(self)@, other@),
    {
        let ghost ours = self@;
        let ghost all = other.listed();
        let entries = other.entries;
        assert(merged(ours, map_of(all.take(0))) =~= ours);
        for entry in it: entries
            invariant
                all == entries.deep_view(),
                distinct(all),
                it.seq() == entries@,
                self.wf(),
                self@ == merged(ours, map_of(all.take(it.index()))),
        {
            let ghost i = it.index();
            let ghost before = map_of(all.take(i));
            let ((account, repo), cached) = entry;
            let ghost key = (account@, repo@);
            proof {
                assert(all[i] == (key, cached.deep_view()));
                assert(all.take(i + 1) =~= all.take(i).insert(i, all[i]));
                assert(!has_key(all.take(i), key));
                lemma_add(all.take(i), i, key, cached.deep_view());
                assert(self@.dom().contains(key) == ours.dom().contains(key));
            }
            let newer: bool = match self.get(account.as_str(), repo.as_str()) {
                Some(known) => known.fetched_at.is_no_later_than(&cached.fetched_at),
                None => true,
            };
            if newer {
                self.insert(account.as_str(), repo.as_str(), cached);
            }
            assert(self@ =~= merged(ours, map_of(all.take(i + 1))));
        }
        assert(all.take(all.len() as int) =~= all);
    }
}

// ----------------------------------------------------------------------------
// What has to be answered for
// ----------------------------------------------------------------------------

pub open spec fn is_ci(n: NotificationView) -> bool {
    n.kind == NotifKindView::CheckSuite
}

/// Whether a run list has to be newer for a notification updated at `updated` than
/// for one updated at `known`: it was updated later, or at a time that cannot be
/// read, for which no run list is new enough. One without a time, its text empty,
/// yields to every other.
pub open spec fn supersedes(updated: Seq<char>, known: Seq<char>) -> bool {
    if updated.len() == 0 || known.len() == 0 {
        updated.len() > 0
    } else {
        match (instant_of(updated), instant_of(known)) {
            (Some(u), Some(k)) => !no_later(u, k),
            (None, Some(_)) => true,
            (_, None) => false,
        }
    }
}

/// Per repository with a CI notification, the latest time at which one of them
/// was updated; empty where none has a time. A time that cannot be read counts as
/// later than any other.
pub open spec fn newest_of(items: Seq<NotificationView>) -> Map<Seq<char>, Seq<char>>
    decreases items.len(),
{
    if items.len() == 0 {
        Map::empty()
    } else {
        let front = newest_of(items.drop_last());
        let item = items.last();
        let updated = or_empty(item.updated_at);
        match item.project {
            Some(repo) => if is_ci(item) && (front.dom().contains(repo) ==> supersedes(
                updated,
                front[repo],
            )) {
                front.insert(repo, updated)
            } else {
                front
            },
            None => front,
        }
    }
}

fn is_check_suite(n: &Notification) -> (r: bool)
    ensures
        r == is_ci(n.deep_view()),
{
    match &n.kind {
        NotifKind::CheckSuite => true,
        _ => false,
    }
}

fn is_superseded(known: &str, updated: &str) -> (r: bool)
    ensures
        r == supersedes(updated@, known@),
{
    if updated.is_empty() || known.is_empty() {
        return !updated.is_empty();
    }
    match (parse_ts(updated), parse_ts(known)) {
        (Some(u), Some(k)) => !u.is_no_later_than(&k),
        (None, Some(_)) => true,
        (_, None) => false,
    }
}

/// Per repository, the latest CI notification timestamp it has to answer for. One
/// that cannot be read is kept over all others, since it forces a refetch; one that
/// is missing counts only where there is no other.
pub fn newest_updates(items: &Vec<Notification>) -> (newest: TextMap<String>)
    ensures
        newest.wf(),
        newest@ == newest_of(items.deep_view()),
{
    let mut newest: TextMap<String> = TextMap::new();
    let ghost all = items.deep_view();
    let mut i: usize = 0;
    while i < items.len()
        invariant
            all == items.deep_view(),
            i <= items@.len(),
            newest.wf(),
            newest@ == newest_of(all.take(i as int)),
        decreases items@.len() - i,
    {
        let item = &items[i];
        proof {
            assert(all.take(i + 1).drop_last() =~= all.take(i as int));
            assert(all.take(i + 1).last() == item.deep_view());
        }
        if is_check_suite(item) {
            if let Some(repo) = &item.project {
                let updated: String = match &item.updated_at {
                    Some(updated) => updated.clone(),
                    None => String::new(),
                };
                let later: bool = match newest.get(repo.as_str()) {
                    Some(known) => is_superseded(known.as_str(), updated.as_str()),
                    None => true,
                };
                if later {
                    newest.insert(repo.clone(), updated);
                }
            }
        }
        i += 1;
    }
    assert(all.take(all.len() as int) =~= all);
    newest
}

// ----------------------------------------------------------------------------
// What the cache answers
// ----------------------------------------------------------------------------

/// The kept run list for a repository, where one is kept and still covers it.
pub open spec fn kept(
    cache: Map<(Seq<char>, Seq<char>), CachedRunsView>,
    account: Option<Seq<char>>,
    repo: Seq<char>,
    updated: Seq<char>,
    now: (int, int),
) -> Option<Seq<JsonView>> {
    match account {
        Some(a) => if cache.dom().contains((a, repo)) && covers(
            cache[(a, repo)].fetched_at,
            Some(updated),
            now,
        ) {
            Some(cache[(a, repo)].runs)
        } else {
            None
        },
        None => None,
    }
}

/// The run lists that the cache has for the repositories.
pub open spec fn served(
    newest: Seq<(Seq<char>, Seq<char>)>,
    cache: Map<(Seq<char>, Seq<char>), CachedRunsView>,
    account: Option<Seq<char>>,
    now: (int, int),
) -> Map<Seq<char>, Seq<JsonView>>
    decreases newest.len(),
{
    if newest.len() == 0 {
        Map::empty()
    } else {
        let front = served(newest.drop_last(), cache, account, now);
        let (repo, updated) = newest.last();
        match kept(cache, account, repo, updated, now) {
            Some(runs) => front.insert(repo, runs),
            None => front,
        }
    }
}

/// The repositories whose run list has to be read anew.
pub open spec fn stale(
    newest: Seq<(Seq<char>, Seq<char>)>,
    cache: Map<(Seq<char>, Seq<char>), CachedRunsView>,
    account: Option<Seq<char>>,
    now: (int, int),
) -> Seq<Seq<char>>
    decreases newest.len(),
{
    if newest.len() == 0 {
        Seq::empty()
    } else {
        let front = stale(newest.drop_last(), cache, account, now);
        let (repo, updated) = newest.last();
        match kept(cache, account, repo, updated, now) {
            Some(_) => front,
            None => front.push(repo),
        }
    }
}

/// A copy of the kept run list for a repository, where it still covers it.
fn kept_runs(
    cache: &RunsCache,
    account: Option<&str>,
    repo: &str,
    updated: &str,
    now: Instant,
) -> (r: Option<Vec<Json>>)
    requires
        cache.wf(),
    ensures
        r.deep_view() == kept(cache@, account.deep_view(), repo@, updated@, now@),
{
    match account {
        Some(a) => match cache.get(a, repo) {
            Some(cached) => if runs_cache_is_fresh(cached.fetched_at, Some(updated), now) {
                Some(copy_all(&cached.runs))
            } else {
                None
            },
            None => None,
        },
        None => None,
    }
}

/// Splits the repositories into those that the cache still answers for, with
/// their run lists, and those that have to be read anew.
pub fn serve_from_cache(
    newest: &TextMap<String>,
    cache: &RunsCache,
    account: Option<&str>,
    now: Instant,
) -> (r: (TextMap<Vec<Json>>, Vec<String>))
    requires
        cache.wf(),
    ensures
        r.0.wf(),
        r.0@ == served(newest.listed(), cache@, account.deep_view(), now@),
        r.1.deep_view() == stale(newest.listed(), cache@, account.deep_view(), now@),
{
    let mut out: TextMap<Vec<Json>> = TextMap::new();
    let mut missing: Vec<String> = Vec::new();
    let ghost all = newest.listed();
    let mut i: usize = 0;
    assert(missing.deep_view() =~= Seq::<Seq<char>>::empty());
    while i < newest.len()
        invariant
            cache.wf(),
            all == newest.listed(),
            i <= all.len(),
            out.wf(),
            out@ == served(all.take(i as int), cache@, account.deep_view(), now@),
            missing.deep_view() == stale(all.take(i as int), cache@, account.deep_view(), now@),
        decreases all.len() - i,
    {
        let repo = newest.key_at(i);
        let updated = newest.value_at(i);
        proof {
            assert(all.take(i + 1).drop_last() =~= all.take(i as int));
            assert(all.take(i + 1).last() == (repo@, updated@));
        }
        match kept_runs(cache, account, repo, updated.as_str(), now) {
            Some(runs) => {
                out.insert(repo.to_owned(), runs);
            },
            None => {
                let ghost before = missing.deep_view();
                missing.push(repo.to_owned());
                assert(missing.deep_view() =~= before.push(repo@));
            },
        }
        i += 1;
    }
    assert(all.take(all.len() as int) =~= all);
    (out, missing)
}

// ----------------------------------------------------------------------------
// What the repositories answer
// ----------------------------------------------------------------------------

pub open spec fn runs_calls(repos: Seq<Seq<char>>) -> Seq<Seq<Seq<char>>> {
    Seq::new(repos.len(), |i: int| runs_words(repos[i]))
}

/// The calls that read the repositories' runs.
pub fn calls_for_runs(repos: &Vec<String>) -> (calls: Vec<Vec<String>>)
    ensures
        calls.deep_view() == runs_calls(repos.deep_view()),
{
    let mut calls: Vec<Vec<String>> = Vec::new();
    let mut i: usize = 0;
    while i < repos.len()
        invariant
            i <= repos@.len(),
            calls@.len() == i,
            forall|k: int|
                0 <= k < i ==> (#[trigger] calls@[k]).deep_view() == runs_words(repos@[k]@),
        decreases repos@.len() - i,
    {
        calls.push(runs_args(repos[i].as_str()));
        i += 1;
    }
    assert(calls.deep_view() =~= runs_calls(repos.deep_view()));
    calls
}

/// The run list in an answer, if there is an answer that holds one.
pub open spec fn answered_runs(answer: Result<Seq<u8>, ErrorView>) -> Option<Seq<JsonView>> {
    match answer {
        Ok(raw) => runs_in(raw),
        Err(_) => None,
    }
}

/// `known` with the run lists of the first `n` answers added.
pub open spec fn with_answers(
    known: Map<Seq<char>, Seq<JsonView>>,
    repos: Seq<Seq<char>>,
    answers: Seq<Result<Seq<u8>, ErrorView>>,
    n: nat,
) -> Map<Seq<char>, Seq<JsonView>>
    decreases n,
{
    if n == 0 {
        known
    } else {
        let front = with_answers(known, repos, answers, (n - 1) as nat);
        match answered_runs(answers[n - 1]) {
            Some(runs) => front.insert(repos[n - 1], runs),
            None => front,
        }
    }
}

/// `cache` with the run lists of the first `n` answers kept for the account.
pub open spec fn with_kept(
    cache: Map<(Seq<char>, Seq<char>), CachedRunsView>,
    account: Option<Seq<char>>,
    now: (int, int),
    repos: Seq<Seq<char>>,
    answers: Seq<Result<Seq<u8>, ErrorView>>,
    n: nat,
) -> Map<(Seq<char>, Seq<char>), CachedRunsView>
    decreases n,
{
    if n == 0 {
        cache
    } else {
        let front = with_kept(cache, account, now, repos, answers, (n - 1) as nat);
        match (account, answered_runs(answers[n - 1])) {
            (Some(a), Some(runs)) => front.insert(
                (a, repos[n - 1]),
                CachedRunsView { fetched_at: now, runs },
            ),
            _ => front,
        }
    }
}

fn runs_of_answer(answer: &Result<Vec<u8>, Error>) -> (r: Option<Vec<Json>>)
    ensures
        r.deep_view() == answered_runs(answer_view(*answer)),
{
    match answer {
        Ok(raw) => parse_runs(raw.as_slice()),
        Err(_) => None,
    }
}

/// Adds the run lists that the repositories answered with, and keeps them for the
/// account. A repository whose call or parse failed is left out.
pub fn take_answers(
    known: TextMap<Vec<Json>>,
    cache: &mut RunsCache,
    account: Option<&str>,
    now: Instant,
    repos: &Vec<String>,
    answers: &Vec<Result<Vec<u8>, Error>>,
) -> (out: TextMap<Vec<Json>>)
    requires
        known.wf(),
        old(cache).wf(),
    ensures
        out.wf(),
        final(cache).wf(),
        out@ == with_answers(
            known@,
            repos.deep_view(),
            answers_view(answers@),
            lesser(repos@.len(), answers@.len()),
        ),
        final(cache)@ == with_kept(
            old(cache)@,
            account.deep_view(),
            now@,
            repos.deep_view(),
            answers_view(answers@),
            lesser(repos@.len(), answers@.len()),
        ),
{
    let mut out = known;
    let ghost names = repos.deep_view();
    let ghost given = answers_view(answers@);
    let ghost first = cache@;
    let mut n: usize = 0;
    while n < repos.len() && n < answers.len()
        invariant
            names == repos.deep_view(),
            given == answers_view(answers@),
            n <= repos@.len(),
            n <= answers@.len(),
            out.wf(),
            cache.wf(),
            out@ == with_answers(known@, names, given, n as nat),
            cache@ == with_kept(first, account.deep_view(), now@, names, given, n as nat),
        decreases repos@.len() - n,
    {
        assert(names[n as int] == repos@[n as int]@);
        assert(given[n as int] == answer_view(answers@[n as int]));
        if let Some(runs) = runs_of_answer(&answers[n]) {
            if let Some(a) = account {
                cache.insert(
                    a,
                    repos[n].as_str(),
                    CachedRuns { fetched_at: now, runs: copy_all(&runs) },
                );
            }
            out.insert(repos[n].clone(), runs);
        }
        n += 1;
    }
    out
}

/// The run lists and the cache once the repositories that the cache does not
/// answer for have answered with `given`.
pub open spec fn runs_taken(
    newest: Seq<(Seq<char>, Seq<char>)>,
    account: Option<Seq<char>>,
    now: (int, int),
    before: Map<(Seq<char>, Seq<char>), CachedRunsView>,
    after: Map<(Seq<char>, Seq<char>), CachedRunsView>,
    runs: Map<Seq<char>, Seq<JsonView>>,
    given: Seq<Result<Seq<u8>, ErrorView>>,
) -> bool {
    let known = served(newest, before, account, now);
    let missing = stale(newest, before, account, now);
    let n = lesser(missing.len(), given.len());
    &&& runs == with_answers(known, missing, given, n)
    &&& after == with_kept(before, account, now, missing, given, n)
}

/// The repositories' run lists: those that the cache still answers for come from
/// it, the others from one call of `ask`, which is handed the `gh` calls that read
/// them. Where the cache answers for all of them, `ask` is not called, so only
/// otherwise does it have to be callable, and only with those `gh` calls.
pub fn refreshed_runs<F: FnOnce(&Vec<Vec<String>>) -> Vec<Result<Vec<u8>, Error>>>(
    newest: &TextMap<String>,
    cache: &mut RunsCache,
    account: Option<&str>,
    now: Instant,
    ask: F,
) -> (runs: TextMap<Vec<Json>>)
    requires
        old(cache).wf(),
        ({
            let missing = stale(newest.listed(), old(cache)@, account.deep_view(), now@);
            missing.len() > 0 ==> forall|calls: &Vec<Vec<String>>|
                calls.deep_view() == runs_calls(missing) ==> #[trigger] call_requires(
                    ask,
                    (calls,),
                )
        }),
    ensures
        runs.wf(),
        final(cache).wf(),
        ({
            let missing = stale(newest.listed(), old(cache)@, account.deep_view(), now@);
            if missing.len() == 0 {
                &&& runs@ == served(newest.listed(), old(cache)@, account.deep_view(), now@)
                &&& final(cache)@ == old(cache)@
            } else {
                exists|calls: &Vec<Vec<String>>, answers: Vec<Result<Vec<u8>, Error>>|
                    calls.deep_view() == runs_calls(missing) && #[trigger] call_ensures(
                        ask,
                        (calls,),
                        answers,
                    ) && runs_taken(
                        newest.listed(),
                        account.deep_view(),
                        now@,
                        old(cache)@,
                        final(cache)@,
                        runs@,
                        answers_view(answers@),
                    )
            }
        }),
{
    let (known, missing) = serve_from_cache(newest, cache, account, now);
    if missing.len() == 0 {
        return known;
    }
    let calls = calls_for_runs(&missing);
    let answers = ask(&calls);
    take_answers(known, cache, account, now, &missing, &answers)
}

// ----------------------------------------------------------------------------
// Linking
// ----------------------------------------------------------------------------

/// A CI notification with the link to its run, where the run is found; any other
/// notification as it was.
pub open spec fn linked_one(
    item: NotificationView,
    runs: Map<Seq<char>, Seq<JsonView>>,
) -> NotificationView {
    match item.project {
        Some(repo) => if is_ci(item) && runs.dom().contains(repo) {
            match run_page(runs[repo], item.title, or_empty(item.updated_at)) {
                Some(url) => NotificationView { url: Some(url), ..item },
                None => item,
            }
        } else {
            item
        },
        None => item,
    }
}

pub open spec fn linked(
    items: Seq<NotificationView>,
    runs: Map<Seq<char>, Seq<JsonView>>,
) -> Seq<NotificationView> {
    Seq::new(items.len(), |i: int| linked_one(items[i], runs))
}

/// The page of the run that a notification is about.
fn run_link(item: &Notification, runs: &TextMap<Vec<Json>>) -> (r: Option<String>)
    requires
        runs.wf(),
    ensures
        match r {
            Some(url) => linked_one(item.deep_view(), runs@) == (NotificationView {
                url: Some(url@),
                ..item.deep_view()
            }),
            None => linked_one(item.deep_view(), runs@) == item.deep_view(),
        },
{
    if !is_check_suite(item) {
        return None;
    }
    let repo: &str = match &item.project {
        Some(repo) => repo.as_str(),
        None => return None,
    };
    let list = match runs.get(repo) {
        Some(list) => list,
        None => return None,
    };
    let none: String = String::new();
    let updated: &str = match &item.updated_at {
        Some(updated) => updated.as_str(),
        None => none.as_str(),
    };
    let known = list.as_slice();
    assert(known.deep_view() =~= list.deep_view());
    match_run_url(known, item.title.as_str(), updated)
}

/// Upgrades each CI notification's link from the repository's Actions page to
/// the specific workflow run it refers to, where that run is found.
pub fn link_runs(items: Vec<Notification>, runs: &TextMap<Vec<Json>>) -> (r: Vec<Notification>)
    requires
        runs.wf(),
    ensures
        r.deep_view() == linked(items.deep_view(), runs@),
{
    let mut out: Vec<Notification> = Vec::new();
    let ghost all = items.deep_view();
    for item in it: items
        invariant
            runs.wf(),
            all == items.deep_view(),
            it.seq() == items@,
            out@.len() == it.index(),
            forall|k: int|
                0 <= k < out@.len() ==> (#[trigger] out@[k]).deep_view() == linked_one(
                    all[k],
                    runs@,
                ),
    {
        assert(all[it.index()] == item.deep_view());
        let link = run_link(&item, runs);
        let mut item = item;
        if let Some(url) = link {
            item.url = Some(url);
        }
        out.push(item);
    }
    assert(out.deep_view() =~= linked(all, runs@));
    out
}

/// The notifications with their CI links resolved by the run lists that `read` gives
/// for the repositories concerned. Where no notification is about CI, `read` is not
/// called, so only otherwise does it have to be callable, and only for those
/// repositories.
pub fn linked_inbox<F: FnOnce(&TextMap<String>, &mut RunsCache) -> TextMap<Vec<Json>>>(
    items: Vec<Notification>,
    cache: &mut RunsCache,
    read: F,
) -> (r: Vec<Notification>)
    requires
        old(cache).wf(),
        newest_of(items.deep_view()) != Map::<Seq<char>, Seq<char>>::empty() ==> forall|
            newest: &TextMap<String>,
            c: &mut RunsCache,
        |
            newest.wf() && newest@ == newest_of(items.deep_view()) && *c == *old(cache)
                ==> #[trigger] call_requires(read, (newest, c)),
        forall|newest: &TextMap<String>, c: &mut RunsCache, runs: TextMap<Vec<Json>>| #[trigger]
            call_ensures(read, (newest, c), runs) ==> runs.wf() && final(c).wf(),
    ensures
        final(cache).wf(),
        if newest_of(items.deep_view()) == Map::<Seq<char>, Seq<char>>::empty() {
            &&& r.deep_view() == items.deep_view()
            &&& final(cache)@ == old(cache)@
        } else {
            exists|newest: &TextMap<String>, c: &mut RunsCache, runs: TextMap<Vec<Json>>|
                {
                    &&& newest.wf()
                    &&& newest@ == newest_of(items.deep_view())
                    &&& *c == *old(cache)
                    &&& *final(c) == *final(cache)
                    &&& #[trigger] call_ensures(read, (newest, c), runs)
                    &&& r.deep_view() == linked(items.deep_view(), runs@)
                }
        },
{
    let newest = newest_updates(&items);
    proof {
        newest.lemma_listed();
    }
    if newest.len() == 0 {
        assert(newest@ =~= Map::<Seq<char>, Seq<char>>::empty());
        return items;
    }
    proof {
        assert(has_key(newest.listed(), newest.listed()[0].0));
        assert(newest@.dom().contains(newest.listed()[0].0));
    }
    let runs = read(&newest, cache);
    link_runs(items, &runs)
}

}
