//! The `gh` command line tool: how it is asked, whether it can be, and who it is
//! signed in as.
use crate::error::{answer_view, Error, ErrorView};
use crate::map::TextMap;
use crate::text::{join_words, joined, line_of, read_line};
use vstd::prelude::*;
use vstd::string::*;

verus! {

// ----------------------------------------------------------------------------
// The runner
// ----------------------------------------------------------------------------

/// Borrow an owned argument vector as the words [`GhRunner::run`] takes.
pub fn as_args(args: &[String]) -> (r: Vec<&str>)
    ensures
        r.deep_view() == args.deep_view(),
{
    let mut out: Vec<&str> = Vec::new();
    let mut i: usize = 0;
    while i < args.len()
        invariant
            i <= args@.len(),
            out@.len() == i,
            forall|k: int| 0 <= k < i ==> (#[trigger] out@[k])@ == args@[k]@,
        decreases args@.len() - i,
    {
        out.push(args[i].as_str());
        i += 1;
    }
    assert(out.deep_view() =~= args.deep_view());
    out
}

/// Whether the words that were handed over read as `words`.
pub open spec fn spells(args: &[&str], words: Seq<Seq<char>>) -> bool {
    args.deep_view() == words
}

/// Abstraction over invoking `gh`, so tests can feed fixtures instead of
/// spawning the real process.
pub trait GhRunner {
    /// Run `gh` with `args`, returning captured stdout on success.
    fn run(&self, args: &[&str]) -> (r: Result<Vec<u8>, Error>);

    /// Run independent invocations, returning one result per call in input
    /// order. The default is sequential; a runner that spawns processes overrides
    /// it with a bounded parallel version. Order is part of what callers rely on
    /// to keep result priority (see [`answers_in_order`]).
    fn run_batch(&self, calls: &[Vec<String>]) -> (r: Vec<Result<Vec<u8>, Error>>)
        default_ensures
            exists|sent: Seq<&[&str]>|
                #[trigger] sent.len() == calls@.len() && r@.len() == calls@.len() && forall|i: int|
                    #![trigger sent[i]]
                    0 <= i < calls@.len() ==> spells(sent[i], calls@[i].deep_view())
                        && call_ensures(Self::run, (self, sent[i]), r@[i]),
    {
        let mut out: Vec<Result<Vec<u8>, Error>> = Vec::new();
        let mut i: usize = 0;
        let ghost mut sent: Seq<&[&str]> = Seq::empty();
        while i < calls.len()
            invariant
                i <= calls@.len(),
                out@.len() == i,
                sent.len() == i,
                forall|k: int|
                    #![trigger sent[k]]
                    0 <= k < i ==> spells(sent[k], calls@[k].deep_view()) && call_ensures(
                        Self::run,
                        (self, sent[k]),
                        out@[k],
                    ),
            decreases calls@.len() - i,
        {
            let args = as_args(calls[i].as_slice());
            let words = args.as_slice();
            let answer = self.run(words);
            out.push(answer);
            proof {
                assert(spells(words, calls@[i as int].deep_view()));
                sent = sent.push(words);
            }
            i += 1;
        }
        out
    }

    /// Key identifying the account this runner talks to, for caches that outlive
    /// it. `None` disables caching, which is what fakes want so tests never
    /// observe each other's entries.
    fn cache_key(&self) -> (r: Option<&str>)
        default_ensures
            r is None,
    {
        None
    }
}

/// A reference runs like the runner it points at, so a caller can keep ownership
/// (and inspect the runner afterwards) while handing it to a backend.
impl<T: GhRunner + ?Sized> GhRunner for &T {
    fn run(&self, args: &[&str]) -> (r: Result<Vec<u8>, Error>)
        ensures
            call_ensures(T::run, (*self, args), r),
    {
        (**self).run(args)
    }

    fn run_batch(&self, calls: &[Vec<String>]) -> (r: Vec<Result<Vec<u8>, Error>>)
        ensures
            call_ensures(T::run_batch, (*self, calls), r),
    {
        (**self).run_batch(calls)
    }

    fn cache_key(&self) -> (r: Option<&str>)
        ensures
            call_ensures(T::cache_key, (*self,), r),
    {
        (**self).cache_key()
    }
}

/// Whether `answer` can be what the runner gives for a run with these words.
pub open spec fn answers_run<R: GhRunner>(
    runner: &R,
    words: Seq<Seq<char>>,
    answer: Result<Vec<u8>, Error>,
) -> bool {
    exists|args: &[&str]|
        spells(args, words) && #[trigger] call_ensures(R::run, (runner, args), answer)
}

/// Whether `answers` can be what the runner gives for a batch of these calls.
pub open spec fn answers_batch<R: GhRunner>(
    runner: &R,
    calls: Seq<Seq<Seq<char>>>,
    answers: Vec<Result<Vec<u8>, Error>>,
) -> bool {
    exists|batch: &[Vec<String>]|
        batch.deep_view() == calls && #[trigger] call_ensures(
            R::run_batch,
            (runner, batch),
            answers,
        )
}

/// Whether the runner answers a batch call by call: one answer per call, in the order
/// of the calls, each one that a run with that call's words can give.
pub open spec fn answers_in_order<R: GhRunner>(runner: &R) -> bool {
    forall|batch: &[Vec<String>], answers: Vec<Result<Vec<u8>, Error>>| #[trigger]
        call_ensures(R::run_batch, (runner, batch), answers) ==> {
            &&& answers@.len() == batch@.len()
            &&& forall|i: int|
                0 <= i < answers@.len() ==> answers_run(
                    runner,
                    batch@[i].deep_view(),
                    #[trigger] answers@[i],
                )
        }
}

/// Whether `key` can be the account key that the runner gives.
pub open spec fn answers_key<R: GhRunner>(runner: &R, key: Option<Seq<char>>) -> bool {
    exists|k: Option<&str>|
        k.deep_view() == key && #[trigger] call_ensures(R::cache_key, (runner,), k)
}

/// Runs one invocation.
pub fn ask<R: GhRunner>(runner: &R, args: &[&str]) -> (answer: Result<Vec<u8>, Error>)
    ensures
        answers_run(runner, args.deep_view(), answer),
{
    let answer = runner.run(args);
    assert(spells(args, args.deep_view()));
    answer
}

/// Runs a batch of invocations.
pub fn ask_all<R: GhRunner>(runner: &R, calls: &Vec<Vec<String>>) -> (answers: Vec<
    Result<Vec<u8>, Error>,
>)
    ensures
        answers_batch(runner, calls.deep_view(), answers),
{
    let batch = calls.as_slice();
    let answers = runner.run_batch(batch);
    assert(batch.deep_view() =~= calls.deep_view());
    answers
}

/// The runner's account key.
pub fn account_key<R: GhRunner>(runner: &R) -> (key: Option<String>)
    ensures
        answers_key(runner, key.deep_view()),
{
    let k = runner.cache_key();
    let key: Option<String> = match k {
        Some(s) => Some(s.to_owned()),
        None => None,
    };
    assert(k.deep_view() == key.deep_view());
    key
}

// ----------------------------------------------------------------------------
// Availability
// ----------------------------------------------------------------------------

/// Availability of the `gh` CLI, which the GitHub task backend requires.
#[derive(Debug, Clone, Copy, PartialEq, Eq, Structural)]
pub enum GhStatus {
    /// `gh` is installed and authenticated: the backend can run.
    Ready,
    /// `gh` is not on `PATH`; it must be installed.
    Missing,
    /// `gh` is installed but not logged in; `gh auth login` is needed.
    Unauthenticated,
}

pub open spec fn version_words() -> Seq<Seq<char>> {
    seq!["--version"@]
}

pub open spec fn auth_words() -> Seq<Seq<char>> {
    seq!["auth"@, "status"@]
}

/// The status, by whether `gh` is there and whether it is signed in.
pub open spec fn status_of(installed: bool, authenticated: bool) -> GhStatus {
    if !installed {
        GhStatus::Missing
    } else if authenticated {
        GhStatus::Ready
    } else {
        GhStatus::Unauthenticated
    }
}

/// The status, by what the two probes came back with. The second one counts only
/// where the first succeeded.
pub fn classify_status(
    version: &Result<Vec<u8>, Error>,
    auth: &Result<Vec<u8>, Error>,
) -> (s: GhStatus)
    ensures
        s == status_of(version is Ok, auth is Ok),
{
    match version {
        Ok(_) => match auth {
            Ok(_) => GhStatus::Ready,
            Err(_) => GhStatus::Unauthenticated,
        },
        Err(_) => GhStatus::Missing,
    }
}

/// The status by two probes, of the version and of the sign-in. `auth` is called
/// only where `version` succeeded, so only there does it have to be callable.
pub fn probed_status<
    V: FnOnce() -> Result<Vec<u8>, Error>,
    A: FnOnce() -> Result<Vec<u8>, Error>,
>(version: V, auth: A) -> (s: GhStatus)
    requires
        call_requires(version, ()),
        forall|found: Result<Vec<u8>, Error>| #[trigger]
            call_ensures(version, (), found) && found is Ok ==> call_requires(auth, ()),
    ensures
        exists|found: Result<Vec<u8>, Error>| #[trigger]
            call_ensures(version, (), found) && match found {
                Err(_) => s == GhStatus::Missing,
                Ok(_) => exists|signed: Result<Vec<u8>, Error>| #[trigger]
                    call_ensures(auth, (), signed) && s == status_of(true, signed is Ok),
            },
{
    let found = version();
    if found.is_err() {
        return GhStatus::Missing;
    }
    let signed = auth();
    classify_status(&found, &signed)
}

/// Classify `gh` availability by probing a [`GhRunner`]: the binary must be
/// present (`gh --version`) and authenticated (`gh auth status`). A failure of
/// the first probe, whatever it is, means that `gh` is unusable here.
pub fn gh_status<R: GhRunner>(runner: &R) -> (s: GhStatus)
    ensures
        exists|version: Result<Vec<u8>, Error>| #[trigger]
            answers_run(runner, version_words(), version) && match version {
                Err(_) => s == GhStatus::Missing,
                Ok(_) => exists|auth: Result<Vec<u8>, Error>| #[trigger]
                    answers_run(runner, auth_words(), auth) && s == status_of(true, auth is Ok),
            },
{
    let version = || -> (answer: Result<Vec<u8>, Error>)
        ensures
            answers_run(runner, version_words(), answer),
        {
            let args = ["--version"];
            assert(args.deep_view() =~= version_words());
            ask(runner, args.as_slice())
        };
    let auth = || -> (answer: Result<Vec<u8>, Error>)
        ensures
            answers_run(runner, auth_words(), answer),
        {
            let args = ["auth", "status"];
            assert(args.deep_view() =~= auth_words());
            ask(runner, args.as_slice())
        };
    probed_status(version, auth)
}

// ----------------------------------------------------------------------------
// Account
// ----------------------------------------------------------------------------

/// The authenticated `gh` account: which login on which host. Shown in the setup
/// wizard so the user sees *who* and *where* `gh` is signed in, not just that it
/// is.
#[derive(Debug, Clone, PartialEq, Eq)]
pub struct GhAccount {
    /// Authenticated user's login on this host.
    pub login: String,
    /// Host the login belongs to (`github.com` for the default host).
    pub host: String,
}

pub struct GhAccountView {
    pub login: Seq<char>,
    pub host: Seq<char>,
}

impl DeepView for GhAccount {
    type V = GhAccountView;

    open spec fn deep_view(&self) -> GhAccountView {
        GhAccountView { login: self.login@, host: self.host@ }
    }
}

pub open spec fn login_words() -> Seq<Seq<char>> {
    seq!["api"@, "user"@, "--jq"@, ".login"@]
}

/// The host by its name: `github.com` where none is given.
pub open spec fn host_name(host: Seq<char>) -> Seq<char> {
    if host.len() == 0 {
        "github.com"@
    } else {
        host
    }
}

/// The login in an answer to [`login_words`].
pub open spec fn login_in(answer: Result<Seq<u8>, ErrorView>) -> Result<Seq<char>, ErrorView> {
    match answer {
        Ok(raw) => Ok(line_of(raw)),
        Err(e) => Err(e),
    }
}

pub open spec fn text_view(r: Result<String, Error>) -> Result<Seq<char>, ErrorView> {
    match r {
        Ok(s) => Ok(s@),
        Err(e) => Err(e.deep_view()),
    }
}

pub open spec fn account_in(
    answer: Result<Seq<u8>, ErrorView>,
    host: Seq<char>,
) -> Result<GhAccountView, ErrorView> {
    match login_in(answer) {
        Ok(login) => Ok(GhAccountView { login, host: host_name(host) }),
        Err(e) => Err(e),
    }
}

pub open spec fn account_view(r: Result<GhAccount, Error>) -> Result<GhAccountView, ErrorView> {
    match r {
        Ok(a) => Ok(a.deep_view()),
        Err(e) => Err(e.deep_view()),
    }
}

/// `github.com` for the empty host, the host itself otherwise.
pub fn named_host(host: &str) -> (r: &str)
    ensures
        r@ == host_name(host@),
{
    if host.is_empty() {
        "github.com"
    } else {
        host
    }
}

/// The login in the answer to a login lookup.
pub fn login_from_answer(answer: Result<Vec<u8>, Error>) -> (r: Result<String, Error>)
    ensures
        text_view(r) == login_in(answer_view(answer)),
{
    match answer {
        Ok(raw) => Ok(read_line(raw.as_slice())),
        Err(e) => Err(e),
    }
}

/// The account that the answer to a login lookup on `host` speaks of.
pub fn account_from_answer(answer: Result<Vec<u8>, Error>, host: &str) -> (r: Result<
    GhAccount,
    Error,
>)
    ensures
        account_view(r) == account_in(answer_view(answer), host@),
{
    match login_from_answer(answer) {
        Ok(login) => Ok(GhAccount { login, host: named_host(host).to_owned() }),
        Err(e) => Err(e),
    }
}

/// Asks who `gh` is signed in as.
pub fn ask_login<R: GhRunner>(runner: &R) -> (answer: Result<Vec<u8>, Error>)
    ensures
        answers_run(runner, login_words(), answer),
{
    let args = ["api", "user", "--jq", ".login"];
    assert(args.deep_view() =~= login_words());
    ask(runner, args.as_slice())
}

/// Read the authenticated account for `host` via a [`GhRunner`]. The login comes
/// from `gh api user`; the host echoes the probed host (`github.com` when empty).
pub fn gh_account<R: GhRunner>(runner: &R, host: &str) -> (r: Result<GhAccount, Error>)
    ensures
        exists|answer: Result<Vec<u8>, Error>| #[trigger]
            answers_run(runner, login_words(), answer) && account_view(r) == account_in(
                answer_view(answer),
                host@,
            ),
{
    let answer = ask_login(runner);
    account_from_answer(answer, host)
}

// ----------------------------------------------------------------------------
// The real `gh`
// ----------------------------------------------------------------------------

/// How many `gh` processes may run at once in a batch. Every invocation is its
/// own process, and the count of batched calls follows the data (one per
/// repository with a CI notification), so the fan-out is capped here rather than
/// left to grow with the inbox. Ten is far below GitHub's hundred-concurrent-request
/// secondary limit while covering the usual batch in a single wave.
pub const MAX_PARALLEL_GH: usize = 10;

/// How many workers a batch of `calls` gets.
pub fn worker_count(calls: usize) -> (n: usize)
    ensures
        n <= calls,
        n <= MAX_PARALLEL_GH,
        n == calls || n == MAX_PARALLEL_GH,
{
    if calls < MAX_PARALLEL_GH {
        calls
    } else {
        MAX_PARALLEL_GH
    }
}

/// The real `gh`, pinned to a host by `GH_HOST` (github.com or an enterprise
/// host; empty for the default one).
#[derive(Debug)]
pub struct GhCli {
    pub host: String,
}

/// The variables set for a `gh` process.
pub open spec fn variables_for(host: Seq<char>, token: Option<Seq<char>>) -> Seq<
    (Seq<char>, Seq<char>),
> {
    let pinned: Seq<(Seq<char>, Seq<char>)> = if host.len() == 0 {
        seq![]
    } else {
        seq![("GH_HOST"@, host)]
    };
    match token {
        Some(token) => pinned.push(("GH_TOKEN"@, token)),
        None => pinned,
    }
}

/// What a finished `gh` process comes to: its output, or what it was asked and
/// what it complained of.
pub open spec fn process_result(
    words: Seq<Seq<char>>,
    success: bool,
    stdout: Seq<u8>,
    stderr: Seq<u8>,
) -> Result<Seq<u8>, ErrorView> {
    if success {
        Ok(stdout)
    } else {
        Err(ErrorView::Api("gh "@ + joined(words, " "@) + ": "@ + line_of(stderr)))
    }
}

impl GhCli {
    /// Key of the account this host stands for.
    pub fn cache_key(&self) -> (r: Option<&str>)
        ensures
            r.deep_view() == Some(host_name(self.host@)),
    {
        Some(named_host(self.host.as_str()))
    }

    /// The variables to set for a process: the host, where one is pinned, and the
    /// token, where there is one. The token is handed down explicitly so each `gh`
    /// skips its own keyring read: concurrent reads serialize on the Secret Service.
    pub fn environment(&self, token: Option<String>) -> (r: Vec<(String, String)>)
        ensures
            r.deep_view() == variables_for(self.host@, token.deep_view()),
    {
        let mut out: Vec<(String, String)> = Vec::new();
        if !self.host.as_str().is_empty() {
            out.push(("GH_HOST".to_owned(), self.host.clone()));
        }
        if let Some(token) = token {
            out.push(("GH_TOKEN".to_owned(), token));
        }
        assert(out.deep_view() =~= variables_for(self.host@, token.deep_view()));
        out
    }

    /// What a finished process comes to.
    pub fn finish(args: &[&str], success: bool, stdout: Vec<u8>, stderr: &[u8]) -> (r: Result<
        Vec<u8>,
        Error,
    >)
        ensures
            answer_view(r) == process_result(args.deep_view(), success, stdout@, stderr@),
    {
        if success {
            Ok(stdout)
        } else {
            let mut message: String = "gh ".to_owned();
            let words = join_words(args, " ");
            message.append(words.as_str());
            message.append(": ");
            let complaint = read_line(stderr);
            message.append(complaint.as_str());
            Err(Error::Api(message))
        }
    }

    /// The error for a process that could not be started.
    pub fn not_started(reason: &str) -> (e: Error)
        ensures
            e.deep_view() == ErrorView::Io("spawn gh: "@ + reason@),
    {
        let mut message: String = "spawn gh: ".to_owned();
        message.append(reason);
        Error::Io(message)
    }
}

// ----------------------------------------------------------------------------
// Tokens
// ----------------------------------------------------------------------------

/// `gh`'s own token per host. The inner `Option` records a failed read (not signed
/// in, or `gh` absent) so it is not retried on every call.
pub type TokenCache = TextMap<Option<String>>;

/// The token in the output of `gh auth token`, if it succeeded and printed one.
pub open spec fn token_in(success: bool, stdout: Seq<u8>) -> Option<Seq<char>> {
    if success && line_of(stdout).len() > 0 {
        Some(line_of(stdout))
    } else {
        None
    }
}

/// The token in the output of `gh auth token`.
pub fn token_from_output(success: bool, stdout: &[u8]) -> (r: Option<String>)
    ensures
        r.deep_view() == token_in(success, stdout@),
{
    if !success {
        return None;
    }
    let token = read_line(stdout);
    if token.as_str().is_empty() {
        None
    } else {
        Some(token)
    }
}

/// Whether nothing is kept for a host, neither a token nor the record that it has
/// none.
pub open spec fn token_missing(host: Seq<char>, kept: Map<Seq<char>, Option<Seq<char>>>) -> bool {
    !kept.dom().contains(host_name(host))
}

/// A token lookup for a host: a token kept for the host, or the record that it has
/// none, is given back as it is; whatever is given back is what is kept.
pub open spec fn token_step(
    host: Seq<char>,
    before: Map<Seq<char>, Option<Seq<char>>>,
    after: Map<Seq<char>, Option<Seq<char>>>,
    token: Option<Seq<char>>,
) -> bool {
    let name = host_name(host);
    &&& !token_missing(host, before) ==> token == before[name]
    &&& after == before.insert(name, token)
}

/// The token `gh` would use for `host`, for passing down to child invocations as
/// `GH_TOKEN`. Read at most once per host: the read itself spawns `gh auth token`,
/// which hits the keyring exactly the once this is meant to avoid repeating.
/// `None` when `gh` cannot produce one, in which case children fall back to their
/// own keyring lookup as before. `read` is called only where nothing is kept for
/// the host, so only there does it have to be callable.
pub fn cached_token<F: FnOnce(&str) -> Option<String>>(
    cache: &mut TokenCache,
    host: &str,
    read: F,
) -> (token: Option<String>)
    requires
        old(cache).wf(),
        token_missing(host@, old(cache)@) ==> call_requires(read, (host,)),
    ensures
        final(cache).wf(),
        token_step(host@, old(cache)@, final(cache)@, token.deep_view()),
        token_missing(host@, old(cache)@) ==> call_ensures(read, (host,), token),
{
    let key = named_host(host);
    let known: Option<Option<String>> = match cache.get(key) {
        Some(token) => Some(copy_token(token)),
        None => None,
    };
    match known {
        Some(token) => {
            assert(cache@ =~= cache@.insert(host_name(host@), token.deep_view()));
            token
        },
        None => {
            let token = read(host);
            cache.insert(key.to_owned(), copy_token(&token));
            token
        },
    }
}

fn copy_token(token: &Option<String>) -> (r: Option<String>)
    ensures
        r.deep_view() == token.deep_view(),
{
    match token {
        Some(s) => Some(s.clone()),
        None => None,
    }
}

}
