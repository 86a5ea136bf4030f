//! Directory snapshots, their comparison, and the countdown that brackets a
//! work session.

pub mod args;
pub mod capture;
pub mod snapshot;
pub mod timer;

pub use args::Args;
pub use snapshot::{ChangeReport, ChangeType, DirectorySnapshot, FileChange, FileInfo};
pub use timer::{Countdown, TimerStep};
