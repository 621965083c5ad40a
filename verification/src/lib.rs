//! GitHub backend driven through the `gh` CLI.
//!
//! Lists my open issues and pull requests and my notifications (read and unread,
//! each tagged with a `read` flag), and marks notifications read; GitHub's REST API
//! has no mark-unread, so read is one-way. `gh` handles authentication and host
//! selection, so no token is stored here.
//!
//! [`backend`] holds the operations. They ask `gh` through a [`runner::GhRunner`]
//! and leave what its output means to the modules below them: [`tasks`],
//! [`notifications`], [`runs`] and [`snapshots`] (run lists kept between polls).
//!
//! What holds of all of these together is stated apart from them: of the texts and
//! values that are read ([`text_laws`], [`json_laws`]), of what a task or a notification
//! tells of them ([`result_laws`]), of the merged list ([`task_laws`]), of CI links and
//! what is kept between polls ([`match_laws`], [`run_laws`]), and of what `gh` is asked
//! ([`runner_laws`]).

pub mod backend;
pub mod clock;
pub mod entities;
pub mod error;
pub mod json;
pub mod json_laws;
pub mod map;
pub mod match_laws;
pub mod notifications;
pub mod result_laws;
pub mod run_laws;
pub mod runner;
pub mod runner_laws;
pub mod runs;
pub mod snapshots;
pub mod task_laws;
pub mod tasks;
pub mod text;
pub mod text_laws;
