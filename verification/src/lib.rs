//! Parsing, filtering and time-ordered merging of glog-style database logs.
//!
//! A run scans many log files, each with a `YBLogReader`, hands the lines that
//! the search asks for to one `OutputCollector`, and sorts them by time at the
//! end.

pub mod args;
pub mod collector;
pub mod coordinator;
pub mod filter;
pub mod logline;
pub mod preamble;
pub mod reader;
pub mod source;
pub mod text;
pub mod timestamp;

pub use args::{capitalize_string, ArgParsingHelper, TimestampArgHelper};
pub use collector::{OutputCollector, OutputRecord};
pub use coordinator::{scan_files, FileReport, InputFile};
pub use filter::{parse_filter_timestamp, timestamp_validator, YBLogReaderContext};
pub use logline::{ParsedLine, YBLogLine};
pub use preamble::{ApplicationFingerprint, YBLogFilePreamble};
pub use reader::{ScanError, ScanState, ScanSummary, YBLogReader};
pub use text::parse_capture;
pub use timestamp::{Timestamp, TimestampWithoutYear};
