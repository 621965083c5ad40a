//! What a task and a notification tell of the JSON value that they were read from.
use crate::entities;
use crate::entities::{
    CiOutcome, InboxReason, NotifKindView, NotificationView, StatusCategory, TaskView,
};
use crate::error::ErrorView;
use crate::json::{decoded, JsonView};
use crate::json_laws::{
    fields_are_what_is_listed, inner_texts_are_what_is_stated, other_values_are_what_is_stated,
    states, states_text, states_within, texts_are_what_is_stated,
};
use crate::notifications::{
    inbox_of, link_of, notification_of, outcome_word, unread_of, web_address,
};
use crate::tasks::{assignees_of, logins_of, search_result, task_of, TaskKind};
use crate::text::decimal;
use crate::text_laws::{
    digits_are_numerals, is_numeral, mentions, mentions_are_found, parts_are_joined_in_turn,
    reads_as, small_letters_read_the_same, the_last_segment_lies_behind_the_last,
    trailing_characters_are_taken_off, without_any,
};
use vstd::prelude::*;

verus! {

// ----------------------------------------------------------------------------
// Tasks
// ----------------------------------------------------------------------------

/// A task's texts are those that the search result states, whatever the search.
pub proof fn a_task_carries_the_texts_of_its_result(
    v: JsonView,
    kind: TaskKind,
    reason: InboxReason,
    s: Seq<char>,
)
    ensures
        ({
            let t = task_of(v, kind, reason);
            &&& states_text(v, "title"@, s) ==> t.title == s
            &&& t.title.len() > 0 ==> states_text(v, "title"@, t.title)
            &&& t.url == Some(s) <==> states_text(v, "url"@, s)
            &&& t.status == Some(s) <==> states_text(v, "state"@, s)
            &&& t.created_at == Some(s) <==> states_text(v, "createdAt"@, s)
            &&& t.updated_at == Some(s) <==> states_text(v, "updatedAt"@, s)
            &&& t.project == Some(s) <==> s.len() > 0 && states_within(
                v,
                "repository"@,
                "nameWithOwner"@,
                s,
            )
        }),
{
    let t = task_of(v, kind, reason);
    texts_are_what_is_stated(v, "title"@, s);
    texts_are_what_is_stated(v, "title"@, t.title);
    texts_are_what_is_stated(v, "url"@, s);
    texts_are_what_is_stated(v, "state"@, s);
    texts_are_what_is_stated(v, "createdAt"@, s);
    texts_are_what_is_stated(v, "updatedAt"@, s);
    inner_texts_are_what_is_stated(v, "repository"@, "nameWithOwner"@, s);
}

/// A task's id is made of the number that the search result states: the number alone
/// as the raw id, behind the project and `#` as the one that is shown. Without a number
/// both are empty.
pub proof fn a_task_is_called_by_its_number(
    v: JsonView,
    kind: TaskKind,
    reason: InboxReason,
    n: i64,
)
    ensures
        ({
            let t = task_of(v, kind, reason);
            &&& states(v, "number"@, JsonView::Number(Some(n))) ==> {
                &&& t.raw == decimal(n as int)
                &&& t.project matches Some(repo) ==> t.display == repo + seq!['#'] + t.raw
                &&& t.project is None ==> t.display == t.raw
            }
            &&& (forall|m: i64| !#[trigger] states(v, "number"@, JsonView::Number(Some(m)))) ==> {
                &&& t.raw.len() == 0
                &&& t.display.len() == 0
            }
        }),
{
    reveal_strlit("#");
    assert("#"@ =~= seq!['#']);
    other_values_are_what_is_stated(v, "number"@, n, true, Seq::empty());
    if let Some(m) = v.integer_at("number"@) {
        other_values_are_what_is_stated(v, "number"@, m, true, Seq::empty());
    }
}

/// But for its kind and reason, a task does not depend on the search that found it, and
/// those two are the search's own. What a search does not tell stays open.
pub proof fn a_task_depends_on_its_search_only_by_kind_and_reason(
    v: JsonView,
    kind: TaskKind,
    reason: InboxReason,
    other_kind: TaskKind,
    other_reason: InboxReason,
)
    ensures
        ({
            let t = task_of(v, kind, reason);
            let u = task_of(v, other_kind, other_reason);
            &&& t == (TaskView { kind: t.kind, reason: t.reason, ..u })
            &&& t.kind == entities::TaskKind::Issue <==> kind == TaskKind::Issue
            &&& t.kind == entities::TaskKind::PullRequest <==> kind == TaskKind::PullRequest
            &&& t.reason == reason
            &&& !t.mine
            &&& t.author is None
            &&& t.due_date is None
            &&& t.priority is None
            &&& t.labels.len() == 0
            &&& t.custom_fields.len() == 0
        }),
{
}

/// A task is open where its state reads "open", done where it reads "closed" or
/// "merged", whatever the letters' case, and otherwise of unknown status.
pub proof fn a_task_is_open_or_done_by_its_state(v: JsonView, kind: TaskKind, reason: InboxReason)
    ensures
        match task_of(v, kind, reason).status {
            Some(s) => {
                let c = task_of(v, kind, reason).status_category;
                &&& c == StatusCategory::Open <==> reads_as(s, "open"@)
                &&& c == StatusCategory::Done <==> reads_as(s, "closed"@) || reads_as(s, "merged"@)
            },
            None => task_of(v, kind, reason).status_category == StatusCategory::Unknown,
        },
{
    if let Some(s) = task_of(v, kind, reason).status {
        reveal_strlit("open");
        reveal_strlit("closed");
        reveal_strlit("merged");
        small_letters_read_the_same(s, "open"@);
        small_letters_read_the_same(s, "closed"@);
        small_letters_read_the_same(s, "merged"@);
    }
}

/// A task's assignees are the logins that the result states, in turn, with a comma and
/// a blank between them: an assignee more adds its login at the end, one without a
/// login adds nothing, and without any there is none.
pub proof fn assignees_are_listed_in_turn(
    v: JsonView,
    w: JsonView,
    items: Seq<JsonView>,
    item: JsonView,
    login: Seq<char>,
    kind: TaskKind,
    reason: InboxReason,
)
    requires
        states(v, "assignees"@, JsonView::Array(items)),
        states(w, "assignees"@, JsonView::Array(items.push(item))),
    ensures
        items.len() == 0 ==> task_of(v, kind, reason).assignee is None,
        (forall|x: Seq<char>| !#[trigger] states_text(item, "login"@, x)) ==> task_of(
            w,
            kind,
            reason,
        ).assignee == task_of(v, kind, reason).assignee,
        states_text(item, "login"@, login) ==> task_of(w, kind, reason).assignee == Some(
            match task_of(v, kind, reason).assignee {
                Some(before) => before + seq![',', ' '] + login,
                None => login,
            },
        ),
{
    reveal_strlit(", ");
    assert(", "@ =~= seq![',', ' ']);
    let longer = items.push(item);
    other_values_are_what_is_stated(v, "assignees"@, 0, true, items);
    other_values_are_what_is_stated(w, "assignees"@, 0, true, longer);
    texts_are_what_is_stated(item, "login"@, login);
    if let Some(x) = item.text_at("login"@) {
        texts_are_what_is_stated(item, "login"@, x);
    }
    assert(longer.drop_last() =~= items);
    assert(longer.last() == item);
    parts_are_joined_in_turn(logins_of(items), login, ", "@);
    if logins_of(items).len() == 0 {
        assert(logins_of(items).push(login) =~= seq![login]);
    }
    assert(task_of(v, kind, reason).assignee == assignees_of(v));
}

/// A result that states no array of assignees has none.
pub proof fn without_assignees_there_are_none(v: JsonView, kind: TaskKind, reason: InboxReason)
    requires
        forall|items: Seq<JsonView>| !#[trigger] states(v, "assignees"@, JsonView::Array(items)),
    ensures
        task_of(v, kind, reason).assignee is None,
{
    if let Some(items) = v.array_at("assignees"@) {
        other_values_are_what_is_stated(v, "assignees"@, 0, true, items);
    }
}

/// A search's output gives one task per value, in the same order; output that holds no
/// array of values gives an error.
pub proof fn each_value_is_a_task(raw: Seq<u8>, kind: TaskKind, reason: InboxReason)
    ensures
        match decoded(raw) {
            Ok(values) => {
                &&& search_result(raw, kind, reason) matches Ok(tasks)
                &&& tasks.len() == values.len()
                &&& forall|i: int|
                    0 <= i < tasks.len() ==> #[trigger] tasks[i] == task_of(values[i], kind, reason)
            },
            Err(reason_text) => search_result(raw, kind, reason) == Err::<
                Seq<TaskView>,
                ErrorView,
            >(ErrorView::Api("parse gh output: "@ + reason_text)),
        },
{
}

// ----------------------------------------------------------------------------
// Notifications
// ----------------------------------------------------------------------------

/// A notification's texts are those that the value states.
pub proof fn a_notification_carries_the_texts_of_its_value(v: JsonView, s: Seq<char>)
    ensures
        ({
            let n = notification_of(v);
            &&& states_text(v, "id"@, s) ==> n.id == s
            &&& n.id.len() > 0 ==> states_text(v, "id"@, n.id)
            &&& states_text(v, "reason"@, s) ==> n.reason == s
            &&& n.reason.len() > 0 ==> states_text(v, "reason"@, n.reason)
            &&& states_within(v, "subject"@, "title"@, s) ==> n.title == s
            &&& n.title.len() > 0 ==> states_within(v, "subject"@, "title"@, n.title)
            &&& n.project == Some(s) <==> states_within(v, "repository"@, "full_name"@, s)
            &&& n.updated_at == Some(s) <==> states_text(v, "updated_at"@, s)
            &&& n.wp_id is None
        }),
{
    let n = notification_of(v);
    texts_are_what_is_stated(v, "id"@, s);
    texts_are_what_is_stated(v, "id"@, n.id);
    texts_are_what_is_stated(v, "reason"@, s);
    texts_are_what_is_stated(v, "reason"@, n.reason);
    inner_texts_are_what_is_stated(v, "subject"@, "title"@, s);
    inner_texts_are_what_is_stated(v, "subject"@, "title"@, n.title);
    inner_texts_are_what_is_stated(v, "repository"@, "full_name"@, s);
    texts_are_what_is_stated(v, "updated_at"@, s);
}

/// A notification is read exactly where the value states that it is not unread, whatever
/// it is about.
pub proof fn a_notification_is_read_where_it_is_said_to_be(v: JsonView)
    ensures
        notification_of(v).read <==> states(v, "unread"@, JsonView::Bool(false)),
{
    other_values_are_what_is_stated(v, "unread"@, 0, false, Seq::empty());
}

/// A notification's kind is its subject's type, by its exact name; any other type is
/// kept as it is named, a missing one as the empty name.
pub proof fn a_notification_is_of_its_subjects_type(v: JsonView, ty: Seq<char>)
    ensures
        states_within(v, "subject"@, "type"@, ty) ==> {
            let k = notification_of(v).kind;
            &&& k == NotifKindView::Issue <==> ty == "Issue"@
            &&& k == NotifKindView::PullRequest <==> ty == "PullRequest"@
            &&& k == NotifKindView::CheckSuite <==> ty == "CheckSuite"@
            &&& k matches NotifKindView::Other(name) ==> name == ty
        },
        (forall|x: Seq<char>| !#[trigger] states_within(v, "subject"@, "type"@, x))
            ==> notification_of(v).kind == NotifKindView::Other(Seq::empty()),
{
    lemma_type_names();
    inner_texts_are_what_is_stated(v, "subject"@, "type"@, ty);
    if let Some(x) = v.text_within("subject"@, "type"@) {
        inner_texts_are_what_is_stated(v, "subject"@, "type"@, x);
    }
}

proof fn lemma_type_names()
    ensures
        "Issue"@ != "PullRequest"@,
        "Issue"@ != "CheckSuite"@,
        "PullRequest"@ != "CheckSuite"@,
{
    reveal_strlit("Issue");
    reveal_strlit("PullRequest");
    reveal_strlit("CheckSuite");
    assert("Issue"@[0] == 'I' && "PullRequest"@[0] == 'P' && "CheckSuite"@[0] == 'C');
}

/// CI notifications and no others have an outcome, and it is what their title tells:
/// a failure where it mentions one, otherwise a success where it mentions that, and
/// otherwise neither.
pub proof fn a_ci_title_tells_the_outcome(v: JsonView)
    ensures
        ({
            let n = notification_of(v);
            match n.outcome {
                Some(outcome) => {
                    let fails = mentions(n.title, "fail"@);
                    let passes = mentions(n.title, "succe"@) || mentions(n.title, "passed"@);
                    &&& n.kind == NotifKindView::CheckSuite
                    &&& outcome == CiOutcome::Failure <==> fails
                    &&& outcome == CiOutcome::Success <==> passes && !fails
                    &&& outcome_word(outcome) == (if fails {
                        "failure"@
                    } else if passes {
                        "success"@
                    } else {
                        "neutral"@
                    })
                },
                None => n.kind != NotifKindView::CheckSuite,
            }
        }),
{
    let n = notification_of(v);
    lemma_type_names();
    mentions_are_found(n.title, "fail"@);
    mentions_are_found(n.title, "succe"@);
    mentions_are_found(n.title, "passed"@);
}

/// The notifications are one per value of the output, in the same order; output that
/// holds no array of values gives an error.
pub proof fn each_value_is_a_notification(raw: Seq<u8>)
    ensures
        match decoded(raw) {
            Ok(values) => {
                &&& inbox_of(raw) matches Ok(items)
                &&& items.len() == values.len()
                &&& forall|i: int|
                    0 <= i < items.len() ==> #[trigger] items[i] == notification_of(values[i])
            },
            Err(reason) => inbox_of(raw) == Err::<Seq<NotificationView>, ErrorView>(
                ErrorView::Api("parse gh output: "@ + reason),
            ),
        },
{
}

/// No notifications hold none unread, and one more adds one exactly where it is not
/// read, whatever else it says.
pub proof fn each_unread_notification_counts_once(
    items: Seq<NotificationView>,
    item: NotificationView,
)
    ensures
        unread_of(Seq::empty()) == 0,
        unread_of(items.push(item)) == unread_of(items) + (if item.read {
            0nat
        } else {
            1
        }),
{
    reveal_with_fuel(Seq::filter, 2);
    assert(items.push(item).drop_last() =~= items);
}

/// Where none is read, the count is the number of notifications; where all are, it is
/// none; two lists together hold what each of them holds.
pub proof fn unread_counts_add_up(a: Seq<NotificationView>, b: Seq<NotificationView>)
    ensures
        unread_of(a + b) == unread_of(a) + unread_of(b),
        (forall|i: int| 0 <= i < b.len() ==> !(#[trigger] b[i]).read) ==> unread_of(b) == b.len(),
        (forall|i: int| 0 <= i < b.len() ==> (#[trigger] b[i]).read) ==> unread_of(b) == 0,
    decreases b.len(),
{
    if b.len() > 0 {
        let front = b.drop_last();
        unread_counts_add_up(a, front);
        each_unread_notification_counts_once(front, b.last());
        each_unread_notification_counts_once(a + front, b.last());
        assert(front.push(b.last()) =~= b);
        assert((a + front).push(b.last()) =~= a + b);
        assert(forall|i: int| 0 <= i < front.len() ==> #[trigger] front[i] == b[i]);
        assert(b[b.len() - 1] == b.last());
    } else {
        assert(b =~= Seq::empty());
        assert(a + b =~= a);
        each_unread_notification_counts_once(a, notification_of(JsonView::Null));
    }
}

// ----------------------------------------------------------------------------
// Links
// ----------------------------------------------------------------------------

/// Whether `base` is a repository's web address: the one it states, without the slashes
/// at its end, or else the one that its full name has on `github.com`.
pub open spec fn lives_at(repo: JsonView, base: Seq<char>) -> bool {
    ||| exists|slashes: Seq<char>| #[trigger]
        states_text(repo, "html_url"@, base + slashes) && (base.len() > 0 ==> base.last() != '/')
            && forall|i: int| 0 <= i < slashes.len() ==> #[trigger] slashes[i] == '/'
    ||| exists|name: Seq<char>| #[trigger]
        states_text(repo, "full_name"@, name) && base == "https://github.com/"@ + name && forall|
            x: Seq<char>,
        | !#[trigger] states_text(repo, "html_url"@, x)
}

/// Whether a value is about `subject` in `repo`.
pub open spec fn about(v: JsonView, subject: JsonView, repo: JsonView) -> bool {
    states(v, "subject"@, subject) && states(v, "repository"@, repo)
}

proof fn lemma_address(repo: JsonView, base: Seq<char>)
    requires
        lives_at(repo, base),
    ensures
        web_address(repo) == Some(base),
{
    if exists|slashes: Seq<char>| #[trigger]
        states_text(repo, "html_url"@, base + slashes) && (base.len() > 0 ==> base.last() != '/')
            && forall|i: int| 0 <= i < slashes.len() ==> #[trigger] slashes[i] == '/' {
        let slashes = choose|slashes: Seq<char>| #[trigger]
            states_text(repo, "html_url"@, base + slashes) && (base.len() > 0 ==> base.last()
                != '/') && forall|i: int| 0 <= i < slashes.len() ==> #[trigger] slashes[i] == '/';
        texts_are_what_is_stated(repo, "html_url"@, base + slashes);
        trailing_characters_are_taken_off(base, slashes, '/');
    } else {
        let name = choose|name: Seq<char>| #[trigger]
            states_text(repo, "full_name"@, name) && base == "https://github.com/"@ + name
                && forall|x: Seq<char>| !#[trigger] states_text(repo, "html_url"@, x);
        texts_are_what_is_stated(repo, "full_name"@, name);
        if let Some(x) = repo.text_at("html_url"@) {
            texts_are_what_is_stated(repo, "html_url"@, x);
        }
    }
}

/// An issue or a pull request is linked to its own page: the repository's address, the
/// kind of page and the very number that ends the subject's address. Where that address
/// does not end in a number there is no link.
pub proof fn numbered_subjects_are_linked_by_their_number(
    v: JsonView,
    subject: JsonView,
    repo: JsonView,
    base: Seq<char>,
    ty: Seq<char>,
    front: Seq<char>,
    number: Seq<char>,
)
    requires
        about(v, subject, repo),
        lives_at(repo, base),
        states_text(subject, "type"@, ty),
        ty == "Issue"@ || ty == "PullRequest"@,
        states_text(subject, "url"@, front + seq!['/'] + number) || states_text(
            subject,
            "url"@,
            number,
        ),
        without_any(number, '/'),
    ensures
        is_numeral(number) && ty == "Issue"@ ==> notification_of(v).url == Some(
            base + "/issues/"@ + number,
        ),
        is_numeral(number) && ty == "PullRequest"@ ==> notification_of(v).url == Some(
            base + "/pull/"@ + number,
        ),
        !is_numeral(number) ==> notification_of(v).url is None,
{
    reveal_strlit("/");
    reveal_strlit("issues");
    reveal_strlit("pull");
    reveal_strlit("/issues/");
    reveal_strlit("/pull/");
    lemma_type_names();
    lemma_address(repo, base);
    fields_are_what_is_listed(v, "subject"@, subject);
    fields_are_what_is_listed(v, "repository"@, repo);
    texts_are_what_is_stated(subject, "type"@, ty);
    texts_are_what_is_stated(subject, "url"@, front + seq!['/'] + number);
    texts_are_what_is_stated(subject, "url"@, number);
    the_last_segment_lies_behind_the_last(front, number, '/');
    digits_are_numerals(number);
    assert(base + "/"@ + "issues"@ + "/"@ + number =~= base + "/issues/"@ + number);
    assert(base + "/"@ + "pull"@ + "/"@ + number =~= base + "/pull/"@ + number);
    assert(notification_of(v).url == link_of(v));
}

/// A CI notification is linked to its repository's Actions page, whatever else its
/// subject says.
pub proof fn ci_subjects_are_linked_to_the_actions_page(
    v: JsonView,
    subject: JsonView,
    repo: JsonView,
    base: Seq<char>,
)
    requires
        about(v, subject, repo),
        lives_at(repo, base),
        states_text(subject, "type"@, "CheckSuite"@),
    ensures
        notification_of(v).url == Some(base + "/actions"@),
{
    lemma_type_names();
    lemma_address(repo, base);
    fields_are_what_is_listed(v, "subject"@, subject);
    fields_are_what_is_listed(v, "repository"@, repo);
    texts_are_what_is_stated(subject, "type"@, "CheckSuite"@);
}

/// There is no link without a subject of one of the three types, without the address of
/// an issue or a pull request, or without a repository that has an address.
pub proof fn other_subjects_have_no_link(v: JsonView, subject: JsonView, repo: JsonView)
    requires
        ({
            ||| forall|x: JsonView| !#[trigger] states(v, "subject"@, x)
            ||| forall|x: JsonView| !#[trigger] states(v, "repository"@, x)
            ||| about(v, subject, repo) && forall|ty: Seq<char>| #[trigger]
                states_text(subject, "type"@, ty) ==> ty != "Issue"@ && ty != "PullRequest"@ && ty
                    != "CheckSuite"@
            ||| about(v, subject, repo) && !states_text(subject, "type"@, "CheckSuite"@) && forall|
                url: Seq<char>,
            | !#[trigger] states_text(subject, "url"@, url)
            ||| about(v, subject, repo) && (forall|x: Seq<char>|
                !#[trigger] states_text(repo, "html_url"@, x)) && (forall|x: Seq<char>|
                !#[trigger] states_text(repo, "full_name"@, x))
        }),
    ensures
        notification_of(v).url is None,
{
    if let Some(x) = v.field("subject"@) {
        fields_are_what_is_listed(v, "subject"@, x);
    }
    if let Some(x) = v.field("repository"@) {
        fields_are_what_is_listed(v, "repository"@, x);
    }
    fields_are_what_is_listed(v, "subject"@, subject);
    fields_are_what_is_listed(v, "repository"@, repo);
    if let Some(ty) = subject.text_at("type"@) {
        texts_are_what_is_stated(subject, "type"@, ty);
    }
    if let Some(url) = subject.text_at("url"@) {
        texts_are_what_is_stated(subject, "url"@, url);
    }
    if let Some(x) = repo.text_at("html_url"@) {
        texts_are_what_is_stated(repo, "html_url"@, x);
    }
    if let Some(x) = repo.text_at("full_name"@) {
        texts_are_what_is_stated(repo, "full_name"@, x);
    }
}

/// Different numbers of one repository have different pages.
pub proof fn different_numbers_have_different_links(
    v: JsonView,
    w: JsonView,
    subject: JsonView,
    other: JsonView,
    repo: JsonView,
    base: Seq<char>,
    ty: Seq<char>,
    front: Seq<char>,
    a: Seq<char>,
    b: Seq<char>,
)
    requires
        about(v, subject, repo),
        about(w, other, repo),
        lives_at(repo, base),
        ty == "Issue"@ || ty == "PullRequest"@,
        states_text(subject, "type"@, ty),
        states_text(other, "type"@, ty),
        states_text(subject, "url"@, front + seq!['/'] + a),
        states_text(other, "url"@, front + seq!['/'] + b),
        is_numeral(a),
        is_numeral(b),
        a != b,
    ensures
        notification_of(v).url is Some,
        notification_of(w).url is Some,
        notification_of(v).url != notification_of(w).url,
{
    lemma_no_slash(a);
    lemma_no_slash(b);
    numbered_subjects_are_linked_by_their_number(v, subject, repo, base, ty, front, a);
    numbered_subjects_are_linked_by_their_number(w, other, repo, base, ty, front, b);
    let lead = if ty == "Issue"@ {
        base + "/issues/"@
    } else {
        base + "/pull/"@
    };
    assert((lead + a).skip(lead.len() as int) =~= a);
    assert((lead + b).skip(lead.len() as int) =~= b);
}

proof fn lemma_no_slash(s: Seq<char>)
    requires
        is_numeral(s),
    ensures
        without_any(s, '/'),
{
    assert('/' as u32 == 47);
    assert forall|i: int| 0 <= i < s.len() implies #[trigger] s[i] != '/' by {
        assert(48 <= s[i] as u32);
    }
}

}
