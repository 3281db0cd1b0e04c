use gdb_frontend::{
    display_order, follow_up_commands, is_general_purpose, launch_args, line_events,
    loaded_event, reader_line, Command, CommandSequencer, DebuggerEvent, Frame, PauseState,
    StateEvent, StopReason, UiEvent,
};

#[test]
fn launch_arguments() {
    assert_eq!(launch_args(None), vec!["--interpreter=mi", "--quiet"]);
    assert_eq!(launch_args(Some("./a.out")), vec!["--interpreter=mi", "--quiet", "./a.out"]);
}

#[test]
fn loaded_event_only_with_executable() {
    assert!(loaded_event(None).is_none());
    match loaded_event(Some("prog")) {
        Some(DebuggerEvent::State(StateEvent::ProgramLoaded { executable })) => {
            assert_eq!(executable, "prog")
        }
        other => panic!("unexpected {:?}", other),
    }
}

#[test]
fn commands_get_increasing_tokens() {
    let mut seq = CommandSequencer::new();
    assert_eq!(seq.next, 1);
    let first = seq.frame(&Command::Run);
    assert_eq!(first.wire, "1-exec-run\n");
    match first.echo {
        DebuggerEvent::Ui(UiEvent::ConsoleOutput(t)) => assert_eq!(t, "> -exec-run"),
        other => panic!("unexpected {:?}", other),
    }
    let second = seq.frame(&Command::RemoveBreakpoint(7));
    assert_eq!(second.wire, "2-break-delete 7\n");
    assert_eq!(seq.next, 3);
    seq.next = 41;
    assert_eq!(seq.frame(&Command::Raw("info locals".into())).wire, "41info locals\n");
}

#[test]
fn reader_trims_line_endings() {
    assert_eq!(reader_line("^done\r\n").as_deref(), Some("^done"));
    assert_eq!(reader_line("^done\n").as_deref(), Some("^done"));
    assert_eq!(reader_line("^done").as_deref(), Some("^done"));
    assert_eq!(reader_line("a\n\n").as_deref(), Some("a"));
    assert_eq!(reader_line("\r\n"), None);
    assert_eq!(reader_line(""), None);
}

#[test]
fn every_line_is_echoed_before_its_event() {
    let events = line_events("*running,thread-id=\"all\"");
    assert_eq!(events.len(), 2);
    match &events[0] {
        DebuggerEvent::Ui(UiEvent::ConsoleOutput(t)) => assert_eq!(t, "*running,thread-id=\"all\""),
        other => panic!("unexpected {:?}", other),
    }
    assert!(matches!(events[1], DebuggerEvent::State(StateEvent::ProgramStarted)));
    let events = line_events("(gdb)");
    assert_eq!(events.len(), 1);
}

#[test]
fn register_classes() {
    assert!(is_general_purpose("rax"));
    assert!(is_general_purpose("x30"));
    assert!(is_general_purpose("t6"));
    assert!(is_general_purpose("cpsr"));
    assert!(!is_general_purpose("xmm0"));
    assert!(!is_general_purpose(""));
    assert_eq!(display_order("rax"), 0);
    assert_eq!(display_order("eax"), 0);
    assert_eq!(display_order("r15"), 15);
    assert_eq!(display_order("rip"), 16);
    assert_eq!(display_order("eip"), 16);
    assert_eq!(display_order("eflags"), 17);
    assert_eq!(display_order("rflags"), 17);
    assert_eq!(display_order("x0"), 99);
}

#[test]
fn queries_after_load_and_pause() {
    let after_load = follow_up_commands(&StateEvent::ProgramLoaded { executable: "p".into() });
    assert_eq!(after_load.len(), 1);
    assert!(matches!(after_load[0], Command::RequestRegisterNames));
    let frame = Frame { addr: 0, function: "f".into(), file: None, line: None };
    let pause = PauseState {
        thread_id: 1,
        frame: frame.clone(),
        stack: vec![frame],
        stop_reason: StopReason::Unknown,
    };
    let after_pause = follow_up_commands(&StateEvent::ProgramPaused { pause });
    assert_eq!(after_pause.len(), 3);
    assert!(matches!(after_pause[0], Command::RequestLocals));
    assert!(matches!(after_pause[1], Command::RequestRegisters));
    assert!(matches!(after_pause[2], Command::RequestDisasm));
    assert!(follow_up_commands(&StateEvent::ProgramStarted).is_empty());
}
