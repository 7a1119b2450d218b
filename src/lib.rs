//! A bounded-concurrency task engine: named units of work are queued in a
//! registry and handed out for execution so that no more than a fixed number
//! of them are in flight at once.
//!
//! The library holds every decision of the engine. The caller owns the
//! threads: it asks the manager what to do next, performs that action, and
//! reports each finished task back.

mod host;
pub mod laws;
pub mod registry;
pub mod scheduler;
pub mod task;

pub use registry::{DequeueOrder, TaskRegistry};
pub use scheduler::{limit_from_cores, Action, TaskManager, BACKOFF_MILLIS};
pub use task::Task;
