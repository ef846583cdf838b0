//! A post-mortem, log-driven debug adapter core.
//!
//! Given the text of a captured log file and a corpus of source files, the
//! library maps each log line to the source line that most likely emitted it
//! and drives a replay cursor over the log: stepping, continuing in either
//! direction, and honouring breakpoints set on the log file or on source
//! files.  Transport, file reading and glob expansion live outside the
//! library; everything here is specified and verified.

pub mod app_state;
pub mod dap_logger;
pub mod launch;
pub mod log_search;
pub mod pattern;
pub mod protocol;
pub mod score;
pub mod text;
