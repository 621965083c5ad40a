//! Notifications as `gh api notifications` prints them, turned into
//! [`Notification`]s with a link that a browser can open.
use crate::entities::{CiOutcome, NotifKind, NotifKindView, Notification, NotificationView};
use crate::error::{Error, ErrorView};
use crate::json::{parse_values, read_array, Json, JsonView};
use crate::tasks::or_empty;
use crate::text::{
    after_last, all_digits, contains_lowered, has, last_segment, lower, only_digits, same_text,
    trim_end_char, without_trailing,
};
use vstd::prelude::*;
use vstd::string::*;

verus! {

// ----------------------------------------------------------------------------
// How a CI run ended
// ----------------------------------------------------------------------------

/// The outcome that a check-suite title speaks of, whatever the letters' case.
pub open spec fn outcome_of(title: Seq<char>) -> CiOutcome {
    if has(lower(title), "fail"@) {
        CiOutcome::Failure
    } else if has(lower(title), "succe"@) || has(lower(title), "passed"@) {
        CiOutcome::Success
    } else {
        CiOutcome::Neutral
    }
}

pub open spec fn outcome_word(outcome: CiOutcome) -> Seq<char> {
    match outcome {
        CiOutcome::Failure => "failure"@,
        CiOutcome::Success => "success"@,
        CiOutcome::Neutral => "neutral"@,
    }
}

/// Classify a CheckSuite notification's outcome from its subject title, which
/// GitHub phrases as "... workflow run failed/succeeded/cancelled for ... branch".
/// Returns `"failure"`, `"success"`, or `"neutral"` so the UI can tint it
/// (failed as a warning, succeeded as good). The `gh api notifications` payload
/// carries no structured conclusion, so the title text is the only signal.
pub fn check_suite_outcome(title: &str) -> (word: &'static str)
    ensures
        word@ == outcome_word(outcome_of(title@)),
{
    if contains_lowered(title, "fail") {
        "failure"
    } else if contains_lowered(title, "succe") || contains_lowered(title, "passed") {
        "success"
    } else {
        "neutral"
    }
}

/// The typed CI outcome for a check-suite title (mirrors [`check_suite_outcome`]).
pub fn ci_outcome_from_title(title: &str) -> (r: CiOutcome)
    ensures
        r == outcome_of(title@),
{
    let word = check_suite_outcome(title);
    proof {
        reveal_strlit("failure");
        reveal_strlit("success");
        reveal_strlit("neutral");
        assert("failure"@[0] != "success"@[0]);
        assert("failure"@[0] != "neutral"@[0]);
        assert("success"@[0] != "neutral"@[0]);
    }
    if same_text(word, "failure") {
        CiOutcome::Failure
    } else if same_text(word, "success") {
        CiOutcome::Success
    } else {
        CiOutcome::Neutral
    }
}

// ----------------------------------------------------------------------------
// The browser link
// ----------------------------------------------------------------------------

/// The repository's web address: the one it states, without slashes at its end,
/// or the one on `github.com` for its full name.
pub open spec fn web_address(repo: JsonView) -> Option<Seq<char>> {
    match repo.text_at("html_url"@) {
        Some(url) => Some(without_trailing(url, '/')),
        None => match repo.text_at("full_name"@) {
            Some(name) => Some("https://github.com/"@ + name),
            None => None,
        },
    }
}

/// The page below a repository's web address that shows a subject.
pub open spec fn subject_page(subject: JsonView, base: Seq<char>) -> Option<Seq<char>> {
    match subject.text_at("type"@) {
        Some(ty) => if ty == "Issue"@ || ty == "PullRequest"@ {
            match subject.text_at("url"@) {
                Some(url) => {
                    let number = after_last(url, '/');
                    let path = if ty == "Issue"@ {
                        "issues"@
                    } else {
                        "pull"@
                    };
                    if number.len() > 0 && all_digits(number) {
                        Some(base + "/"@ + path + "/"@ + number)
                    } else {
                        None
                    }
                },
                None => None,
            }
        } else if ty == "CheckSuite"@ {
            Some(base + "/actions"@)
        } else {
            None
        },
        None => None,
    }
}

/// The page that shows what a notification is about.
pub open spec fn link_of(v: JsonView) -> Option<Seq<char>> {
    match (v.field("subject"@), v.field("repository"@)) {
        (Some(subject), Some(repo)) => match web_address(repo) {
            Some(base) => subject_page(subject, base),
            None => None,
        },
        _ => None,
    }
}

fn repository_address(repo: &Json) -> (r: Option<String>)
    ensures
        r.deep_view() == web_address(repo.deep_view()),
{
    match repo.str_at("html_url") {
        Some(url) => Some(trim_end_char(url, '/').to_owned()),
        None => match repo.str_at("full_name") {
            Some(name) => {
                let mut base: String = "https://github.com/".to_owned();
                base.append(name);
                Some(base)
            },
            None => None,
        },
    }
}

/// Browser URL for a notification's subject, or `None` when it cannot be built
/// (unsupported subject type, or missing repository/number). Built from the
/// repository web address so it works on GitHub Enterprise hosts too, not only
/// `github.com`.
pub fn notification_html_url(v: &Json) -> (r: Option<String>)
    ensures
        r.deep_view() == link_of(v.deep_view()),
{
    let subject = match v.get("subject") {
        Some(subject) => subject,
        None => return None,
    };
    let repo = match v.get("repository") {
        Some(repo) => repo,
        None => return None,
    };
    let mut link: String = match repository_address(repo) {
        Some(base) => base,
        None => return None,
    };
    let ty: &str = match subject.str_at("type") {
        Some(ty) => ty,
        None => return None,
    };
    let is_issue: bool = same_text(ty, "Issue");
    if is_issue || same_text(ty, "PullRequest") {
        // The number is the last path segment of the subject's API address.
        let number: &str = match subject.str_at("url") {
            Some(url) => last_segment(url, '/'),
            None => return None,
        };
        if number.is_empty() || !only_digits(number) {
            return None;
        }
        link.append("/");
        if is_issue {
            link.append("issues");
        } else {
            link.append("pull");
        }
        link.append("/");
        link.append(number);
        Some(link)
    } else if same_text(ty, "CheckSuite") {
        // A CI notification carries no subject number or browser address, so it
        // links to the Actions page, where the run is listed.
        link.append("/actions");
        Some(link)
    } else {
        // Other subject types (Discussion, Release, ...) have no reliable link.
        None
    }
}

// ----------------------------------------------------------------------------
// One notification
// ----------------------------------------------------------------------------

pub open spec fn notif_kind_of(ty: Option<Seq<char>>) -> NotifKindView {
    match ty {
        Some(ty) => if ty == "Issue"@ {
            NotifKindView::Issue
        } else if ty == "PullRequest"@ {
            NotifKindView::PullRequest
        } else if ty == "CheckSuite"@ {
            NotifKindView::CheckSuite
        } else {
            NotifKindView::Other(ty)
        },
        None => NotifKindView::Other(Seq::empty()),
    }
}

/// Map a GitHub notification subject type (PascalCase: `Issue`, `PullRequest`,
/// `CheckSuite`, `Discussion`, ...) to a [`NotifKind`].
pub fn notif_kind_from_subject_type(t: Option<&str>) -> (r: NotifKind)
    ensures
        r.deep_view() == notif_kind_of(t.deep_view()),
{
    match t {
        Some(ty) => if same_text(ty, "Issue") {
            NotifKind::Issue
        } else if same_text(ty, "PullRequest") {
            NotifKind::PullRequest
        } else if same_text(ty, "CheckSuite") {
            NotifKind::CheckSuite
        } else {
            NotifKind::Other(ty.to_owned())
        },
        None => NotifKind::Other(String::new()),
    }
}

/// The notification that one element of `gh api notifications` output stands for.
/// One that does not say whether it is unread counts as unread.
pub open spec fn notification_of(v: JsonView) -> NotificationView {
    let ty = v.text_within("subject"@, "type"@);
    let title = or_empty(v.text_within("subject"@, "title"@));
    NotificationView {
        id: or_empty(v.text_at("id"@)),
        reason: or_empty(v.text_at("reason"@)),
        kind: notif_kind_of(ty),
        title,
        project: v.text_within("repository"@, "full_name"@),
        url: link_of(v),
        updated_at: v.text_at("updated_at"@),
        read: v.bool_at("unread"@) == Some(false),
        outcome: if ty == Some("CheckSuite"@) {
            Some(outcome_of(title))
        } else {
            None
        },
        wp_id: None,
    }
}

fn text_or_empty(s: Option<&str>) -> (r: String)
    ensures
        r@ == or_empty(s.deep_view()),
{
    match s {
        Some(s) => s.to_owned(),
        None => String::new(),
    }
}

/// Build a typed [`Notification`] from one `gh api notifications` element. `url`
/// is the browser-viewable subject address (the REST `subject.url` is not
/// viewable); a check-suite item also carries its run `outcome`.
pub fn notification_from_gh(v: &Json) -> (n: Notification)
    ensures
        n.deep_view() == notification_of(v.deep_view()),
{
    let ty: Option<&str> = v.str_within("subject", "type");
    let title: String = text_or_empty(v.str_within("subject", "title"));
    let unread: bool = match v.bool_at("unread") {
        Some(unread) => unread,
        None => true,
    };
    let outcome: Option<CiOutcome> = match ty {
        Some(ty) => if same_text(ty, "CheckSuite") {
            Some(ci_outcome_from_title(title.as_str()))
        } else {
            None
        },
        None => None,
    };
    let project: Option<String> = match v.str_within("repository", "full_name") {
        Some(name) => Some(name.to_owned()),
        None => None,
    };
    assert(ty.deep_view() == v.deep_view().text_within("subject"@, "type"@));
    Notification {
        id: text_or_empty(v.str_at("id")),
        reason: text_or_empty(v.str_at("reason")),
        kind: notif_kind_from_subject_type(ty),
        title,
        project,
        url: notification_html_url(v),
        updated_at: v.string_at("updated_at"),
        read: !unread,
        outcome,
        wp_id: None,
    }
}

// ----------------------------------------------------------------------------
// The inbox
// ----------------------------------------------------------------------------

pub open spec fn notifications_of(values: Seq<JsonView>) -> Seq<NotificationView> {
    Seq::new(values.len(), |i: int| notification_of(values[i]))
}

/// What the output of the notifications endpoint comes to.
pub open spec fn inbox_of(raw: Seq<u8>) -> Result<Seq<NotificationView>, ErrorView> {
    match read_array(raw) {
        Ok(values) => Ok(notifications_of(values)),
        Err(e) => Err(e),
    }
}

pub open spec fn notifications_view(r: Result<Vec<Notification>, Error>) -> Result<
    Seq<NotificationView>,
    ErrorView,
> {
    match r {
        Ok(items) => Ok(items.deep_view()),
        Err(e) => Err(e.deep_view()),
    }
}

/// Each element of the endpoint's output as a [`Notification`].
pub fn notifications_from_values(values: &Vec<Json>) -> (r: Vec<Notification>)
    ensures
        r.deep_view() == notifications_of(values.deep_view()),
{
    let mut out: Vec<Notification> = Vec::new();
    let mut i: usize = 0;
    while i < values.len()
        invariant
            i <= values@.len(),
            out@.len() == i,
            forall|k: int|
                0 <= k < i ==> (#[trigger] out@[k]).deep_view() == notification_of(
                    values@[k].deep_view(),
                ),
        decreases values@.len() - i,
    {
        out.push(notification_from_gh(&values[i]));
        i += 1;
    }
    assert(out.deep_view() =~= notifications_of(values.deep_view()));
    out
}

/// Reads the output of the notifications endpoint.
pub fn parse_notifications(raw: &[u8]) -> (r: Result<Vec<Notification>, Error>)
    ensures
        notifications_view(r) == inbox_of(raw@),
{
    match parse_values(raw) {
        Ok(values) => Ok(notifications_from_values(&values)),
        Err(e) => Err(e),
    }
}

/// How many of the notifications are unread.
pub open spec fn unread_of(items: Seq<NotificationView>) -> nat {
    items.filter(|n: NotificationView| !n.read).len()
}

pub fn unread_count(items: &Vec<Notification>) -> (n: u64)
    ensures
        n == unread_of(items.deep_view()),
{
    let ghost all = items.deep_view();
    let ghost unread = |n: NotificationView| !n.read;
    let mut n: u64 = 0;
    let mut i: usize = 0;
    while i < items.len()
        invariant
            all == items.deep_view(),
            unread == (|n: NotificationView| !n.read),
            i <= items@.len(),
            n <= i,
            n == all.take(i as int).filter(unread).len(),
        decreases items@.len() - i,
    {
        proof {
            let shown = all.take(i + 1);
            assert(shown.drop_last() =~= all.take(i as int));
            assert(shown.last() == items@[i as int].deep_view());
            reveal_with_fuel(Seq::filter, 2);
        }
        if !items[i].read {
            n += 1;
        }
        i += 1;
    }
    assert(all.take(all.len() as int) =~= all);
    n
}

}
