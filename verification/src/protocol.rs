//! The plain-value model of the adapter's wire protocol: the commands the
//! replay machine consumes and the responses and events it produces.  The
//! framing and JSON shape of these messages live outside the library.

use vstd::prelude::*;

use crate::launch::{ConfigValue, LaunchRequestConfig};

verus! {

/// A request the IDE can send, reduced to what the replay machine decides
/// on.
pub enum Command {
    Initialize,
    Launch { additional_data: Option<ConfigValue> },
    Next,
    StepIn,
    StepOut,
    StepBack,
    Continue,
    ReverseContinue,
    Pause,
    SetBreakpoints { path: Option<String>, lines: Option<Vec<i64>> },
    SetExceptionBreakpoints,
    StackTrace,
    Threads,
    Scopes { frame_id: i64 },
    Variables,
    Disconnect,
    Unknown,
}

/// Why the replay cursor stopped.
#[derive(Clone, Copy, Debug, PartialEq, Eq, Structural)]
pub enum StopReason {
    Entry,
    Step,
    Pause,
    Breakpoint,
}

/// The body of a stopped event.
pub struct StoppedEvent {
    pub reason: StopReason,
    /// The message of the current log line, when it parses.
    pub description: Option<String>,
    pub thread_id: i64,
    pub preserve_focus_hint: bool,
    pub all_threads_stopped: bool,
}

/// One frame of the synthetic call stack.
pub struct StackFrameInfo {
    pub id: i64,
    pub name: String,
    pub source_path: String,
    pub source_name: String,
    pub line: usize,
}

/// One scope of the synthetic frame.
pub struct ScopeInfo {
    pub name: String,
    pub variables_reference: i64,
    pub line: usize,
}

/// A reply to a request.
pub enum Response {
    Ack,
    Error { message: String },
    Capabilities { supports_step_back: bool, supports_restart_request: bool },
    ContinueAll { all_threads_continued: bool },
    StackTrace { frames: Vec<StackFrameInfo>, total_frames: i64 },
    Threads { id: i64, name: String },
    Scopes { scopes: Vec<ScopeInfo> },
    Variables { name: String, value: String },
}

/// What the machine asks of its surroundings: send a reply or an event, or
/// carry out the file reading a launch needs and hand the results back.
pub enum Action {
    Respond(Response),
    EmitInitialized,
    EmitStopped(StoppedEvent),
    PrepareLaunch(LaunchRequestConfig),
}

/// The view of an optional string.
pub open spec fn opt_string_view(s: Option<String>) -> Option<Seq<char>> {
    match s {
        Some(t) => Some(t@),
        None => None,
    }
}

/// A stopped event as the machine emits it: the given reason and
/// description, on the single synthetic thread.
pub open spec fn is_stop_event(
    ev: StoppedEvent,
    reason: StopReason,
    desc: Option<Seq<char>>,
) -> bool {
    &&& ev.reason == reason
    &&& opt_string_view(ev.description) == desc
    &&& ev.thread_id == 0
    &&& !ev.preserve_focus_hint
    &&& !ev.all_threads_stopped
}

} // verus!
