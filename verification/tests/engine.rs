use cmd_core::app_state::AppState;
use cmd_core::engine::{
    apply_terminal_event, engine_step, flush_ready_terminal_resizes, Action, DeferredTerminalResizes,
    EngineInput, EngineOutput, EngineState, RESIZE_DEBOUNCE_MS,
};
use cmd_core::terminal::{TerminalEvent, TerminalSize};

#[test]
fn apply_terminal_event_should_update_shell_integration_state() {
    let mut app = AppState::new();
    app.append_terminal_context_line(0, "/tmp/demo git:(main)".to_string());

    apply_terminal_event(
        &mut app,
        TerminalEvent::Status {
            session_id: 0,
            status: "running".to_string(),
        },
    );
    apply_terminal_event(
        &mut app,
        TerminalEvent::LastCommand {
            session_id: 0,
            command: "git status --short".to_string(),
        },
    );
    apply_terminal_event(
        &mut app,
        TerminalEvent::ExitCode {
            session_id: 0,
            exit_code: 17,
        },
    );
    apply_terminal_event(
        &mut app,
        TerminalEvent::Status {
            session_id: 0,
            status: "ready".to_string(),
        },
    );
    apply_terminal_event(
        &mut app,
        TerminalEvent::Timing {
            session_id: 0,
            seconds: format!("{:.4}", 0.25f64),
        },
    );

    let session = &app.terminal_sessions()[0];
    assert_eq!(session.status, "ready");
    assert_eq!(session.last_command.as_deref(), Some("git status --short"));
    assert_eq!(session.last_exit_code, Some(17));
    assert_eq!(
        session.history.back().map(String::as_str),
        Some("git status --short")
    );
    assert_eq!(
        session.lines.back().map(String::as_str),
        Some("/tmp/demo git:(main) (0.2500s)")
    );
}

#[test]
fn deferred_terminal_resizes_should_coalesce_until_terminal_is_ready() {
    let mut deferred = DeferredTerminalResizes::new();
    let started: u64 = 1_000;

    deferred.schedule(0, TerminalSize { cols: 120, rows: 32 }, started, 120);
    deferred.schedule(0, TerminalSize { cols: 132, rows: 40 }, started + 50, 120);

    assert!(deferred.take_ready(started + 100, |_| true).is_empty());
    assert!(deferred.take_ready(started + 250, |_| false).is_empty());

    assert_eq!(
        deferred.take_ready(started + 250, |session_id| session_id == 0),
        vec![(0, TerminalSize { cols: 132, rows: 40 })]
    );
}

#[test]
fn deferred_resizes_keep_one_entry_per_session() {
    let mut deferred = DeferredTerminalResizes::new();
    deferred.schedule(1, TerminalSize { cols: 80, rows: 24 }, 0, 10);
    deferred.schedule(0, TerminalSize { cols: 90, rows: 30 }, 0, 10);
    deferred.schedule(1, TerminalSize { cols: 100, rows: 40 }, 5, 10);
    assert_eq!(deferred.len(), 2);
    assert_eq!(
        deferred.take_ready(20, |_| true),
        vec![
            (1, TerminalSize { cols: 100, rows: 40 }),
            (0, TerminalSize { cols: 90, rows: 30 })
        ]
    );
    assert_eq!(deferred.len(), 0);
}

#[test]
fn flush_sends_due_resizes_of_ready_sessions_with_a_shell() {
    let mut app = AppState::new_with_sessions(3);
    app.set_terminal_status(0, "ready".to_string());
    app.set_terminal_status(2, "ready".to_string());
    let mut deferred = DeferredTerminalResizes::new();
    deferred.schedule(0, TerminalSize { cols: 100, rows: 30 }, 0, 100);
    deferred.schedule(1, TerminalSize { cols: 110, rows: 31 }, 0, 100);
    deferred.schedule(2, TerminalSize { cols: 120, rows: 32 }, 0, 100);

    // Not yet due.
    assert!(flush_ready_terminal_resizes(&mut app, &mut deferred, 3, 50).is_empty());
    assert_eq!(deferred.len(), 3);

    // Session 1 is not ready; session 2 has no shell.
    let sent = flush_ready_terminal_resizes(&mut app, &mut deferred, 2, 150);
    assert_eq!(sent, vec![(0, TerminalSize { cols: 100, rows: 30 })]);
    assert_eq!(deferred.len(), 1);
    assert_eq!(
        app.terminal_sessions()[0].viewport_size,
        Some(TerminalSize { cols: 100, rows: 30 })
    );
    assert_eq!(app.terminal_sessions()[2].viewport_size, None);
}

#[test]
fn apply_terminal_event_records_directory_changes_once() {
    let mut app = AppState::new();
    apply_terminal_event(
        &mut app,
        TerminalEvent::Cwd {
            session_id: 0,
            cwd: "/tmp/work".to_string(),
        },
    );
    apply_terminal_event(
        &mut app,
        TerminalEvent::Cwd {
            session_id: 0,
            cwd: "/tmp/work".to_string(),
        },
    );
    assert_eq!(app.terminal_sessions()[0].cwd, "/tmp/work");
    let jumps: Vec<String> = app.terminal_directory_history().iter().cloned().collect();
    assert_eq!(jumps, vec!["/tmp/work".to_string()]);
}

#[test]
fn apply_terminal_event_ignores_unknown_sessions() {
    let mut app = AppState::new();
    apply_terminal_event(
        &mut app,
        TerminalEvent::Line {
            session_id: 9,
            line: "lost".to_string(),
        },
    );
    assert!(app.terminal_sessions()[0].lines.is_empty());
}

#[test]
fn engine_step_starts_shells_in_order_and_routes_commands() {
    let mut engine = EngineState::new();
    let mut app = AppState::new();
    let out = engine_step(
        &mut engine,
        &mut app,
        EngineInput::Action(Action::SpawnTerminal {
            cwd: "/tmp".to_string(),
        }),
        0,
        0,
    );
    assert!(matches!(
        out.as_slice(),
        [EngineOutput::StartShell { session_id: 0, cwd }] if cwd == "/tmp"
    ));
    assert_eq!(engine.shell_count, 1);

    let out = engine_step(
        &mut engine,
        &mut app,
        EngineInput::Action(Action::SubmitCommand {
            session_id: 0,
            command: "ls".to_string(),
        }),
        0,
        0,
    );
    assert!(matches!(
        out.as_slice(),
        [EngineOutput::SendInput { session_id: 0, command }] if command == "ls"
    ));

    let out = engine_step(
        &mut engine,
        &mut app,
        EngineInput::Action(Action::SubmitCommand {
            session_id: 4,
            command: "ls".to_string(),
        }),
        0,
        0,
    );
    assert!(out.is_empty());

    let out = engine_step(
        &mut engine,
        &mut app,
        EngineInput::Action(Action::PersistHistory {
            command: "ls".to_string(),
            cwd: "/tmp".to_string(),
        }),
        0,
        0,
    );
    assert!(matches!(
        out.as_slice(),
        [EngineOutput::PersistHistory { command, cwd }] if command == "ls" && cwd == "/tmp"
    ));
}

#[test]
fn engine_step_debounces_resizes_until_the_shell_is_ready() {
    let mut engine = EngineState::new();
    let mut app = AppState::new();
    engine_step(
        &mut engine,
        &mut app,
        EngineInput::Action(Action::SpawnTerminal {
            cwd: "/tmp".to_string(),
        }),
        0,
        0,
    );
    let size = TerminalSize { cols: 100, rows: 20 };
    let out = engine_step(
        &mut engine,
        &mut app,
        EngineInput::Action(Action::ResizeTerminal { session_id: 0, size }),
        0,
        1_000,
    );
    assert!(out.is_empty());
    assert_eq!(engine.resizes.len(), 1);

    // Due, but the shell has not reported ready.
    let out = engine_step(&mut engine, &mut app, EngineInput::ResizeTick, 0, 1_000 + RESIZE_DEBOUNCE_MS);
    assert!(out.is_empty());

    // The ready report flushes it.
    let out = engine_step(
        &mut engine,
        &mut app,
        EngineInput::Terminal(TerminalEvent::Status {
            session_id: 0,
            status: "ready".to_string(),
        }),
        0,
        1_000 + RESIZE_DEBOUNCE_MS,
    );
    assert!(matches!(
        out.as_slice(),
        [EngineOutput::SendResize { session_id: 0, size: s }] if *s == size
    ));
    assert_eq!(engine.resizes.len(), 0);
    assert_eq!(app.terminal_sessions()[0].viewport_size, Some(size));
}

#[test]
fn engine_step_records_mesh_events_and_ticks_activity() {
    let mut engine = EngineState::new();
    let mut app = AppState::new();
    let out = engine_step(&mut engine, &mut app, EngineInput::ActivityTick, 0, 0);
    assert!(out.is_empty());
    assert_eq!(app.registry.total_events_received, 0);
}
