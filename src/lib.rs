//! Supervision of named helper-tool processes.
//!
//! - `registry`: the registry that owns at most one process handle per tool
//!   name, with the decisions of starting, stopping and checking a tool.
//! - `relay`: the line framing that turns a child's output streams into line
//!   events.
//! - `query`: the arguments of a one-shot save-data query, and the reading of
//!   its output as JSON.
//! - `logline`: the format of a log line.

pub mod logline;
pub mod query;
pub mod registry;
pub mod relay;

pub use logline::{format_log_line, log_line};
pub use query::{blank_output_error, parse_failure_message, query_args, query_result};
pub use registry::{Probe, ProcessManager};
pub use relay::{LineFramer, OutputEvent, OutputRelay, Stream};
