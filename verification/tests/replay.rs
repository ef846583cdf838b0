use retread::app_state::{App, AppState, RunningState};
use retread::dap_logger::{init, LogLevel};
use retread::launch::ConfigValue;
use retread::log_search::LogSearchSettings;
use retread::pattern::LogPattern;
use retread::protocol::{Action, Command, Response, StopReason};

fn settings(log_file_name: &str, log_file: &str, pattern: &str) -> LogSearchSettings {
    LogSearchSettings {
        log_file_name: log_file_name.to_string(),
        log_file: log_file.to_string(),
        log_pattern: LogPattern::new(pattern).expect("pattern should compile"),
        sources: vec![],
        exclude: vec![],
    }
}

/// A 50-line log whose every line scores against the single corpus file.
fn plain_replay() -> RunningState {
    let log: String = (0..50).map(|_| "alpha beta\n").collect();
    let corpus = vec![("src.c".to_string(), "alpha beta".to_string())];
    RunningState::new(
        settings("test.log", &log, "(?P<message>.*)$"),
        corpus,
    )
    .expect("log has lines")
}

/// A 50-line log whose line 30 matches kernel/sched.c line 10; every other
/// line matches line 11 of the same file.
fn pinned_replay() -> RunningState {
    let mut log = String::new();
    for i in 1..=50 {
        let l = if i == 30 { 10 } else { 11 };
        log.push_str(&format!("[kernel/sched.c:{}] msg\n", l));
    }
    let contents: String = (0..60).map(|_| "msg here\n").collect();
    let corpus = vec![("kernel/sched.c".to_string(), contents)];
    RunningState::new(
        settings(
            "test.log",
            &log,
            "\\[(?P<file>[^:]+):(?P<line>\\d+)\\] (?P<message>.*)$",
        ),
        corpus,
    )
    .expect("log has lines")
}

fn set_bps(rs: &mut RunningState, path: &str, lines: Vec<i64>) {
    let (acts, exit) = rs.run(Command::SetBreakpoints {
        path: Some(path.to_string()),
        lines: Some(lines),
    });
    assert!(acts.is_empty());
    assert!(!exit);
}

fn start_continue(rs: &mut RunningState) {
    let (acts, exit) = rs.run(Command::Continue);
    assert!(!exit);
    assert_eq!(acts.len(), 1);
    assert!(matches!(
        acts[0],
        Action::Respond(Response::ContinueAll {
            all_threads_continued: true
        })
    ));
    assert!(rs.running);
    assert!(!rs.reverse);
}

/// Tick until the machine emits a stop event, with a generous bound.
fn run_to_stop(rs: &mut RunningState) -> retread::protocol::StoppedEvent {
    for _ in 0..200 {
        if let Some(ev) = rs.tick() {
            return ev;
        }
    }
    panic!("no stop event within bound");
}

#[test]
fn forward_continue_to_log_file_breakpoint() {
    let mut rs = plain_replay();
    set_bps(&mut rs, "test.log", vec![30]);
    start_continue(&mut rs);
    let ev = run_to_stop(&mut rs);
    assert_eq!(ev.reason, StopReason::Breakpoint);
    assert_eq!(rs.log_index, 29);
    assert!(!rs.running);
    assert_eq!(ev.description.as_deref(), Some("alpha beta"));
    assert_eq!(ev.thread_id, 0);
    assert!(!ev.preserve_focus_hint);
    assert!(!ev.all_threads_stopped);
}

#[test]
fn source_file_breakpoint() {
    let mut rs = pinned_replay();
    set_bps(&mut rs, "kernel/sched.c", vec![10]);
    start_continue(&mut rs);
    let ev = run_to_stop(&mut rs);
    assert_eq!(ev.reason, StopReason::Breakpoint);
    assert_eq!(rs.log_index, 29);
    assert!(!rs.running);
}

#[test]
fn step_back_after_breakpoint() {
    let mut rs = pinned_replay();
    set_bps(&mut rs, "kernel/sched.c", vec![10]);
    start_continue(&mut rs);
    run_to_stop(&mut rs);
    assert_eq!(rs.log_index, 29);
    let (acts, exit) = rs.run(Command::StepBack);
    assert!(!exit);
    assert_eq!(acts.len(), 2);
    assert!(matches!(acts[0], Action::Respond(Response::Ack)));
    match &acts[1] {
        Action::EmitStopped(ev) => {
            assert_eq!(ev.reason, StopReason::Step);
            // The cursor moves first: the stop describes the line stepped to.
            assert_eq!(ev.description.as_deref(), Some("msg"));
        }
        other => panic!("expected a stopped event, got {:?}", action_kind(other)),
    }
    assert_eq!(rs.log_index, 28);
    assert!(rs.reverse);
}

fn action_kind(a: &Action) -> &'static str {
    match a {
        Action::Respond(_) => "response",
        Action::EmitInitialized => "initialized event",
        Action::EmitStopped(_) => "stopped event",
        Action::PrepareLaunch(_) => "prepare launch",
    }
}

#[test]
fn end_of_log_stops_with_entry() {
    let mut rs = plain_replay();
    rs.log_index = 49;
    rs.running = true;
    let ev = rs.tick().expect("boundary tick must stop");
    assert_eq!(ev.reason, StopReason::Entry);
    assert!(!rs.running);
    assert_eq!(rs.log_index, 49);
}

#[test]
fn continue_without_breakpoint_runs_to_end() {
    let mut rs = plain_replay();
    // A breakpoint behind the cursor is never reached going forward.
    set_bps(&mut rs, "test.log", vec![1]);
    rs.log_index = 5;
    start_continue(&mut rs);
    let ev = run_to_stop(&mut rs);
    assert_eq!(ev.reason, StopReason::Entry);
    assert_eq!(rs.log_index, 49);
    assert!(!rs.running);
}

#[test]
fn reverse_continue_reaches_earlier_breakpoint() {
    let mut rs = plain_replay();
    set_bps(&mut rs, "test.log", vec![3]);
    rs.log_index = 10;
    let (acts, _) = rs.run(Command::ReverseContinue);
    assert_eq!(acts.len(), 1);
    assert!(matches!(acts[0], Action::Respond(Response::Ack)));
    assert!(rs.running && rs.reverse);
    let ev = run_to_stop(&mut rs);
    assert_eq!(ev.reason, StopReason::Breakpoint);
    assert_eq!(rs.log_index, 2);
}

#[test]
fn set_breakpoints_replaces_per_path() {
    let mut rs = plain_replay();
    set_bps(&mut rs, "test.log", vec![5, 7]);
    set_bps(&mut rs, "other.c", vec![3]);
    set_bps(&mut rs, "test.log", vec![9]);
    let mut log_lines: Vec<i64> = rs
        .breakpoints
        .iter()
        .filter(|b| b.path == "test.log")
        .map(|b| b.line)
        .collect();
    log_lines.sort();
    assert_eq!(log_lines, vec![9]);
    let other_lines: Vec<i64> = rs
        .breakpoints
        .iter()
        .filter(|b| b.path == "other.c")
        .map(|b| b.line)
        .collect();
    assert_eq!(other_lines, vec![3]);
}

#[test]
fn cursor_stays_inside_log() {
    let mut rs = plain_replay();
    // Stepping forward beyond the end stays on the last line.
    for _ in 0..60 {
        rs.run(Command::Next);
        assert!(rs.log_index < 50);
    }
    assert_eq!(rs.log_index, 49);
    // Stepping backward beyond the start stays on the first line.
    for _ in 0..60 {
        rs.run(Command::StepBack);
        assert!(rs.log_index < 50);
    }
    assert_eq!(rs.log_index, 0);
}

#[test]
fn step_advances_then_reports_the_new_line() {
    let mut rs = RunningState::new(
        settings("t.log", "first line\nsecond line\nthird line\n", "(?P<message>.*)$"),
        vec![],
    )
    .unwrap();
    let (acts, _) = rs.run(Command::Next);
    assert_eq!(acts.len(), 2);
    assert!(matches!(acts[0], Action::Respond(Response::Ack)));
    match &acts[1] {
        Action::EmitStopped(ev) => {
            assert_eq!(ev.reason, StopReason::Step);
            assert_eq!(ev.description.as_deref(), Some("second line"));
        }
        other => panic!("expected a stopped event, got {:?}", action_kind(other)),
    }
    assert_eq!(rs.log_index, 1);
    assert!(!rs.running);
    assert!(!rs.reverse);
    // Stepping back reports the line stepped back to.
    let (acts, _) = rs.run(Command::StepBack);
    match &acts[1] {
        Action::EmitStopped(ev) => {
            assert_eq!(ev.description.as_deref(), Some("first line"));
        }
        other => panic!("expected a stopped event, got {:?}", action_kind(other)),
    }
    assert_eq!(rs.log_index, 0);
}

#[test]
fn pause_stops_and_acknowledges() {
    let mut rs = plain_replay();
    start_continue(&mut rs);
    let (acts, _) = rs.run(Command::Pause);
    assert_eq!(acts.len(), 2);
    assert!(matches!(acts[0], Action::Respond(Response::Ack)));
    assert!(matches!(&acts[1], Action::EmitStopped(e) if e.reason == StopReason::Pause));
    assert!(!rs.running);
}

#[test]
fn threads_and_scopes_and_variables() {
    let mut rs = pinned_replay();
    let (acts, _) = rs.run(Command::Threads);
    assert!(
        matches!(&acts[0], Action::Respond(Response::Threads { id, name }) if *id == 0 && name == "main")
    );
    let (acts, _) = rs.run(Command::Scopes { frame_id: 0 });
    match &acts[0] {
        Action::Respond(Response::Scopes { scopes }) => {
            assert_eq!(scopes.len(), 1);
            assert_eq!(scopes[0].name, "Locals");
            assert_eq!(scopes[0].variables_reference, 133);
            assert_eq!(scopes[0].line, 11);
        }
        _ => panic!("expected a scopes response"),
    }
    let (acts, _) = rs.run(Command::Scopes { frame_id: 1 });
    assert!(
        matches!(&acts[0], Action::Respond(Response::Scopes { scopes }) if scopes.is_empty())
    );
    let (acts, _) = rs.run(Command::Variables);
    match &acts[0] {
        Action::Respond(Response::Variables { name, value }) => {
            assert_eq!(name, "Variable name");
            assert_eq!(value, "msg");
        }
        _ => panic!("expected a variables response"),
    }
}

#[test]
fn stack_trace_builds_two_frames() {
    let mut rs = pinned_replay();
    set_bps(&mut rs, "kernel/sched.c", vec![10]);
    start_continue(&mut rs);
    run_to_stop(&mut rs);
    let (acts, _) = rs.run(Command::StackTrace);
    assert_eq!(acts.len(), 1);
    match &acts[0] {
        Action::Respond(Response::StackTrace {
            frames,
            total_frames,
        }) => {
            assert_eq!(*total_frames, 1);
            assert_eq!(frames.len(), 2);
            assert_eq!(frames[0].id, 0);
            assert_eq!(frames[0].name, "sched.c:10");
            assert_eq!(frames[0].source_path, "kernel/sched.c");
            assert_eq!(frames[0].source_name, "sched.c");
            assert_eq!(frames[0].line, 10);
            assert_eq!(frames[1].id, 1);
            assert_eq!(frames[1].name, "test.log");
            assert_eq!(frames[1].source_path, "test.log");
            assert_eq!(frames[1].source_name, "test.log");
            assert_eq!(frames[1].line, 30);
        }
        _ => panic!("expected a stack trace response"),
    }
}

#[test]
fn stack_trace_uses_func_capture() {
    let log = "<do_work> alpha beta\n";
    let corpus = vec![(
        "src.c".to_string(),
        "int do_work() {\nalpha beta\n}".to_string(),
    )];
    let mut rs = RunningState::new(
        settings("t.log", log, "<(?P<func>[a-z_]+)> (?P<message>.*)$"),
        corpus,
    )
    .unwrap();
    let (acts, _) = rs.run(Command::StackTrace);
    match &acts[0] {
        Action::Respond(Response::StackTrace { frames, .. }) => {
            assert_eq!(frames[0].name, "do_work:2");
            assert_eq!(frames[0].line, 2);
        }
        _ => panic!("expected a stack trace response"),
    }
}

#[test]
fn stack_trace_on_unmatchable_log_is_an_error() {
    // No corpus: no line ever scores, so there is nothing to show.
    let mut rs = RunningState::new(
        settings("t.log", "a\nb\n", "(?P<message>.*)$"),
        vec![],
    )
    .unwrap();
    let (acts, _) = rs.run(Command::StackTrace);
    assert_eq!(acts.len(), 1);
    assert!(matches!(
        &acts[0],
        Action::Respond(Response::Error { .. })
    ));
}

#[test]
fn stack_trace_while_running_off_the_end() {
    // No corpus, so the running scan falls off the log: the entry stop is
    // emitted first, then the error response.
    let mut rs = RunningState::new(
        settings("t.log", "a\nb\nc\n", "(?P<message>.*)$"),
        vec![],
    )
    .unwrap();
    start_continue(&mut rs);
    let (acts, _) = rs.run(Command::StackTrace);
    assert_eq!(acts.len(), 2);
    assert!(
        matches!(&acts[0], Action::EmitStopped(e) if e.reason == StopReason::Entry)
    );
    assert!(matches!(&acts[1], Action::Respond(Response::Error { .. })));
    assert_eq!(rs.log_index, 2);
    assert!(!rs.running);
}

#[test]
fn app_initialize_then_launch() {
    let mut app = App::init();
    let acts = app.app_loop(Some(Command::Initialize));
    assert_eq!(acts.len(), 1);
    assert!(matches!(
        acts[0],
        Action::Respond(Response::Capabilities {
            supports_step_back: true,
            supports_restart_request: false,
        })
    ));
    let data = Some(ConfigValue::Object(vec![
        ("log_file".to_string(), ConfigValue::Str("t.log".to_string())),
        (
            "log_pattern".to_string(),
            ConfigValue::Str("(?P<message>.*)$".to_string()),
        ),
        ("sources".to_string(), ConfigValue::Array(vec![])),
        ("exclude".to_string(), ConfigValue::Array(vec![])),
    ]));
    let acts = app.app_loop(Some(Command::Launch {
        additional_data: data,
    }));
    assert_eq!(acts.len(), 1);
    let cfg = match &acts[0] {
        Action::PrepareLaunch(cfg) => cfg,
        _ => panic!("expected a prepare-launch action"),
    };
    assert_eq!(cfg.log_file_name, "t.log");
    // The surroundings read the log and the corpus, then finish the launch.
    let stg = settings("t.log", "alpha beta\n", "(?P<message>.*)$");
    let corpus = vec![("src.c".to_string(), "alpha beta".to_string())];
    let acts = app.complete_launch(stg, corpus);
    assert_eq!(acts.len(), 3);
    // The launch response precedes the events it induces.
    assert!(matches!(acts[0], Action::Respond(Response::Ack)));
    assert!(matches!(acts[1], Action::EmitInitialized));
    assert!(
        matches!(&acts[2], Action::EmitStopped(e) if e.reason == StopReason::Entry
            && e.description.as_deref() == Some("alpha beta"))
    );
    assert!(matches!(app.state, AppState::Running(_)));
}

#[test]
fn launch_with_empty_log_stays_unconfigured() {
    let mut app = App::init();
    let stg = settings("t.log", "", "(?P<message>.*)$");
    let acts = app.complete_launch(stg, vec![]);
    assert_eq!(acts.len(), 2);
    assert!(matches!(acts[0], Action::Respond(Response::Ack)));
    assert!(matches!(acts[1], Action::EmitInitialized));
    assert!(matches!(app.state, AppState::Uninitialized(_)));
}

#[test]
fn launch_error_names_the_field() {
    let mut app = App::init();
    let acts = app.app_loop(Some(Command::Launch {
        additional_data: None,
    }));
    assert_eq!(acts.len(), 1);
    match &acts[0] {
        Action::Respond(Response::Error { message }) => {
            assert_eq!(message, "Init message did not contain additional data");
        }
        _ => panic!("expected an error response"),
    }
    assert!(matches!(app.state, AppState::Uninitialized(_)));
}

#[test]
fn disconnect_exits() {
    let mut app = App::init();
    let stg = settings("t.log", "alpha beta\n", "(?P<message>.*)$");
    app.complete_launch(stg, vec![("src.c".to_string(), "alpha beta".to_string())]);
    let acts = app.app_loop(Some(Command::Disconnect));
    assert_eq!(acts.len(), 1);
    assert!(matches!(acts[0], Action::Respond(Response::Ack)));
    assert!(matches!(app.state, AppState::Exit));
    assert!(app.app_loop(Some(Command::Threads)).is_empty());
}

#[test]
fn unknown_commands_are_ignored() {
    let mut rs = plain_replay();
    let (acts, exit) = rs.run(Command::Unknown);
    assert!(acts.is_empty());
    assert!(!exit);
    let (acts, _) = rs.run(Command::SetExceptionBreakpoints);
    assert_eq!(acts.len(), 1);
    assert!(matches!(acts[0], Action::Respond(Response::Ack)));
}

#[test]
fn variables_error_names_the_offending_line() {
    // The pattern matches nothing, so the current line cannot be parsed.
    let mut rs = RunningState::new(
        settings("t.log", "mystery line\n", "^===(?P<message>.*)$"),
        vec![],
    )
    .unwrap();
    let (acts, _) = rs.run(Command::Variables);
    match &acts[0] {
        Action::Respond(Response::Error { message }) => {
            assert_eq!(message, "Regex did not match line: mystery line");
        }
        _ => panic!("expected an error response"),
    }
}

#[test]
fn logger_decisions_and_format() {
    let logger = init();
    assert!(matches!(logger.max_level, LogLevel::Info));
    assert!(logger.enabled(&LogLevel::Error));
    assert!(logger.enabled(&LogLevel::Info));
    assert!(!logger.enabled(&LogLevel::Debug));
    assert!(!logger.enabled(&LogLevel::Trace));
    assert_eq!(logger.format(&LogLevel::Info, "hello"), "[INFO] hello\n");
    assert_eq!(logger.format(&LogLevel::Error, "x"), "[ERROR] x\n");
}
