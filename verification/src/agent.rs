//! Task execution: the turn loop, and the subscription it spends.

pub mod calendar;
pub mod subscription;
pub mod turn;

pub use subscription::ImportedSubscription;
pub use turn::{Outcome, Task, TurnError, WorkspaceError};
