//! Cooperative arbitration of shared resources between tasks that one driver
//! steps in turn, never two at a time.
//!
//! A task that needs a resource takes it on its first step, whoever held it
//! before. The task that lost it finds out at the start of its own next step
//! and ends with a [`error::PreemptionError`] before touching the resource.
//!
//! - [`requirement`]: the resources, and the record of who owns each.
//! - [`thief`]: the tasks, and the steps they take.
//! - [`error`] and [`equality`]: what a preempted task reports.
//! - [`laws`]: what the protocol guarantees.
//! - [`flag`]: the same mechanism for tasks that need a single resource.
//! - [`convention`] and [`signature`]: how a plain asynchronous function is
//!   offered as a task.
//! - [`proxy`]: arithmetic for tasks that hand work on.

pub mod convention;
pub mod equality;
pub mod error;
pub mod flag;
pub mod laws;
pub mod proxy;
pub mod requirement;
pub mod signature;
pub mod thief;
