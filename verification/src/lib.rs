//! Aligning log files by timestamp: timestamp detection, log loading,
//! alignment of any number of logs, and the scrolling view over the result.
pub mod timestamp;
pub mod text;
pub mod grammar;
pub mod selector;
pub mod logfile;
pub mod compare_result;
pub mod alignment;
pub mod compare;
pub mod view_state;
pub mod render;

pub use alignment::compare_logfiles;
pub use compare_result::CompareResult;
pub use logfile::{LogEntry, LogFile};
pub use selector::{AutoTimestampSelector, SelectedTimestamp, TimestampSelector};
pub use timestamp::Timestamp;
pub mod levels;
