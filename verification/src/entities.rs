//! The typed entities that every backend produces: tasks and notifications.
use vstd::prelude::*;

verus! {

/// A task's id: what is shown for it, and the backend's own.
#[derive(Debug, PartialEq, Eq)]
pub struct TaskId {
    pub display: String,
    pub raw: String,
}

#[derive(Debug, Clone, Copy, PartialEq, Eq, Structural)]
pub enum TaskKind {
    Issue,
    PullRequest,
}

/// Why a task is in my list.
#[derive(Debug, Clone, Copy, PartialEq, Eq, Structural)]
pub enum InboxReason {
    ReviewRequested,
    Involved,
    Own,
}

/// A task's status, reduced to what backends have in common.
#[derive(Debug, Clone, Copy, PartialEq, Eq, Structural)]
pub enum StatusCategory {
    Open,
    Done,
    Unknown,
}

#[derive(Debug, PartialEq, Eq)]
pub struct Task {
    pub id: TaskId,
    pub kind: TaskKind,
    pub reason: InboxReason,
    pub title: String,
    pub url: Option<String>,
    pub status: Option<String>,
    pub status_category: StatusCategory,
    pub project: Option<String>,
    pub mine: bool,
    pub assignee: Option<String>,
    pub author: Option<String>,
    pub created_at: Option<String>,
    pub updated_at: Option<String>,
    pub due_date: Option<String>,
    pub priority: Option<String>,
    pub labels: Vec<String>,
    pub custom_fields: Vec<(String, String)>,
}

/// A [`Task`] with its texts as sequences of characters.
pub struct TaskView {
    pub display: Seq<char>,
    pub raw: Seq<char>,
    pub kind: TaskKind,
    pub reason: InboxReason,
    pub title: Seq<char>,
    pub url: Option<Seq<char>>,
    pub status: Option<Seq<char>>,
    pub status_category: StatusCategory,
    pub project: Option<Seq<char>>,
    pub mine: bool,
    pub assignee: Option<Seq<char>>,
    pub author: Option<Seq<char>>,
    pub created_at: Option<Seq<char>>,
    pub updated_at: Option<Seq<char>>,
    pub due_date: Option<Seq<char>>,
    pub priority: Option<Seq<char>>,
    pub labels: Seq<Seq<char>>,
    pub custom_fields: Seq<(Seq<char>, Seq<char>)>,
}

impl DeepView for Task {
    type V = TaskView;

    open spec fn deep_view(&self) -> TaskView {
        TaskView {
            display: self.id.display@,
            raw: self.id.raw@,
            kind: self.kind,
            reason: self.reason,
            title: self.title@,
            url: self.url.deep_view(),
            status: self.status.deep_view(),
            status_category: self.status_category,
            project: self.project.deep_view(),
            mine: self.mine,
            assignee: self.assignee.deep_view(),
            author: self.author.deep_view(),
            created_at: self.created_at.deep_view(),
            updated_at: self.updated_at.deep_view(),
            due_date: self.due_date.deep_view(),
            priority: self.priority.deep_view(),
            labels: self.labels.deep_view(),
            custom_fields: self.custom_fields.deep_view(),
        }
    }
}

/// What a notification is about.
#[derive(Debug, PartialEq, Eq)]
pub enum NotifKind {
    Issue,
    PullRequest,
    CheckSuite,
    /// Any other subject, by its name at the backend.
    Other(String),
}

pub enum NotifKindView {
    Issue,
    PullRequest,
    CheckSuite,
    Other(Seq<char>),
}

impl DeepView for NotifKind {
    type V = NotifKindView;

    open spec fn deep_view(&self) -> NotifKindView {
        match self {
            NotifKind::Issue => NotifKindView::Issue,
            NotifKind::PullRequest => NotifKindView::PullRequest,
            NotifKind::CheckSuite => NotifKindView::CheckSuite,
            NotifKind::Other(name) => NotifKindView::Other(name@),
        }
    }
}

/// How a CI run ended.
#[derive(Debug, Clone, Copy, PartialEq, Eq, Structural)]
pub enum CiOutcome {
    Failure,
    Success,
    Neutral,
}

#[derive(Debug, PartialEq, Eq)]
pub struct Notification {
    pub id: String,
    pub reason: String,
    pub kind: NotifKind,
    pub title: String,
    pub project: Option<String>,
    pub url: Option<String>,
    pub updated_at: Option<String>,
    pub read: bool,
    pub outcome: Option<CiOutcome>,
    pub wp_id: Option<i64>,
}

/// A [`Notification`] with its texts as sequences of characters.
pub struct NotificationView {
    pub id: Seq<char>,
    pub reason: Seq<char>,
    pub kind: NotifKindView,
    pub title: Seq<char>,
    pub project: Option<Seq<char>>,
    pub url: Option<Seq<char>>,
    pub updated_at: Option<Seq<char>>,
    pub read: bool,
    pub outcome: Option<CiOutcome>,
    pub wp_id: Option<i64>,
}

impl DeepView for Notification {
    type V = NotificationView;

    open spec fn deep_view(&self) -> NotificationView {
        NotificationView {
            id: self.id@,
            reason: self.reason@,
            kind: self.kind.deep_view(),
            title: self.title@,
            project: self.project.deep_view(),
            url: self.url.deep_view(),
            updated_at: self.updated_at.deep_view(),
            read: self.read,
            outcome: self.outcome,
            wp_id: self.wp_id,
        }
    }
}

}
