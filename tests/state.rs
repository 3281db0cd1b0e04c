use gdb_frontend::{
    parse_line, AsmLine, Breakpoint, DebuggerEvent, DebuggerState, Frame, PauseState,
    ProgramState, Register, StateEvent, StopReason, Variable,
};

fn bp(id: u32, file: &str, line: u32) -> Breakpoint {
    Breakpoint { id, file: file.into(), line, enabled: true }
}

fn pause_at(file: &str, line: u32) -> PauseState {
    let frame = Frame {
        addr: 0x10,
        function: "main".into(),
        file: Some(file.into()),
        line: Some(line),
    };
    PauseState { thread_id: 1, frame: frame.clone(), stack: vec![frame], stop_reason: StopReason::EndStepping }
}

fn ids(s: &DebuggerState) -> Vec<u32> {
    s.persistent.breakpoints.iter().map(|b| b.id).collect()
}

fn check_invariant(s: &DebuggerState) {
    assert_eq!(s.pause.is_some(), s.program == ProgramState::Paused);
    let v = ids(s);
    for i in 0..v.len() {
        for j in 0..v.len() {
            if i != j {
                assert_ne!(v[i], v[j]);
            }
        }
    }
}

#[test]
fn new_state_is_empty() {
    let s = DebuggerState::new();
    assert_eq!(s.program, ProgramState::NoProgramLoaded);
    assert!(s.pause.is_none());
    assert!(s.locals.is_empty());
    assert!(s.persistent.breakpoints.is_empty());
    assert!(s.persistent.executable.is_none());
    assert!(!s.is_paused());
    assert!(!s.is_running());
    assert_eq!(s.current_file(), None);
    assert_eq!(s.current_line(), None);
    assert_eq!(s.current_function(), None);
    let d = DebuggerState::default();
    assert_eq!(d.program, ProgramState::NoProgramLoaded);
}

#[test]
fn phases_follow_events() {
    let mut s = DebuggerState::new();
    s.apply(StateEvent::ProgramLoaded { executable: "a.out".into() });
    assert_eq!(s.program, ProgramState::ProgramLoaded);
    assert_eq!(s.persistent.executable.as_deref(), Some("a.out"));
    s.apply(StateEvent::ProgramStarted);
    assert!(s.is_running());
    s.apply(StateEvent::ProgramPaused { pause: pause_at("/a/main.c", 10) });
    assert!(s.is_paused());
    assert_eq!(s.current_file(), Some("/a/main.c"));
    assert_eq!(s.current_line(), Some(10));
    assert_eq!(s.current_function(), Some("main"));
    s.apply(StateEvent::LocalsUpdated {
        vars: vec![Variable { name: "x".into(), value: "1".into(), type_: "int".into() }],
    });
    assert_eq!(s.locals.len(), 1);
    s.apply(StateEvent::ProgramPaused { pause: pause_at("/a/b.c", 3) });
    assert!(s.is_paused());
    assert_eq!(s.current_line(), Some(3));
    assert_eq!(s.locals.len(), 1);
    s.apply(StateEvent::ProgramStarted);
    assert!(s.pause.is_none());
    assert!(s.locals.is_empty());
    s.apply(StateEvent::ProgramExited { code: Some(3) });
    assert_eq!(s.program, ProgramState::Exited { code: Some(3) });
    assert!(s.pause.is_none());
    check_invariant(&s);
}

#[test]
fn only_a_load_leaves_exited() {
    let mut s = DebuggerState::new();
    s.apply(StateEvent::ProgramLoaded { executable: "a.out".into() });
    s.apply(StateEvent::ProgramStarted);
    s.apply(StateEvent::ProgramExited { code: Some(0) });
    s.apply(StateEvent::ProgramStarted);
    assert_eq!(s.program, ProgramState::Exited { code: Some(0) });
    s.apply(StateEvent::ProgramPaused { pause: pause_at("m.c", 1) });
    assert_eq!(s.program, ProgramState::Exited { code: Some(0) });
    assert!(s.pause.is_none());
    assert!(s.has_exited());
    s.apply(StateEvent::ProgramExited { code: Some(1) });
    assert_eq!(s.program, ProgramState::Exited { code: Some(0) });
    s.apply(StateEvent::BreakpointAdded { breakpoint: bp(1, "m.c", 3) });
    assert_eq!(ids(&s), vec![1]);
    s.apply(StateEvent::ProgramLoaded { executable: "a.out".into() });
    assert_eq!(s.program, ProgramState::ProgramLoaded);
    s.apply(StateEvent::ProgramStarted);
    assert!(s.is_running());
    check_invariant(&s);
}

#[test]
fn removing_deletes_exactly_that_breakpoint() {
    let mut s = DebuggerState::new();
    for (id, line) in [(4, 1), (5, 2), (6, 3)] {
        s.apply(StateEvent::BreakpointAdded { breakpoint: bp(id, "m.c", line) });
    }
    let event = match parse_line("=breakpoint-deleted,id=\"5\"") {
        Some(DebuggerEvent::State(e)) => e,
        other => panic!("unexpected {:?}", other),
    };
    s.apply(event);
    assert_eq!(ids(&s), vec![4, 6]);
    assert_eq!(s.persistent.breakpoints[1].line, 3);
    // absent id: nothing changes
    s.apply(StateEvent::BreakpointRemoved { id: 5 });
    assert_eq!(ids(&s), vec![4, 6]);
    check_invariant(&s);
}

#[test]
fn adding_an_existing_id_replaces_it() {
    let mut s = DebuggerState::new();
    s.apply(StateEvent::BreakpointAdded { breakpoint: bp(1, "a.c", 10) });
    s.apply(StateEvent::BreakpointAdded { breakpoint: bp(2, "b.c", 20) });
    s.apply(StateEvent::BreakpointAdded { breakpoint: bp(1, "a.c", 11) });
    assert_eq!(ids(&s), vec![1, 2]);
    assert_eq!(s.persistent.breakpoints[0].line, 11);
    check_invariant(&s);
}

#[test]
fn toggling_changes_only_the_flag() {
    let mut s = DebuggerState::new();
    s.apply(StateEvent::BreakpointAdded { breakpoint: bp(1, "a.c", 10) });
    s.apply(StateEvent::BreakpointAdded { breakpoint: bp(2, "b.c", 20) });
    s.apply(StateEvent::BreakpointToggled { id: 2, enabled: false });
    assert!(s.persistent.breakpoints[0].enabled);
    assert!(!s.persistent.breakpoints[1].enabled);
    assert_eq!(s.persistent.breakpoints[1].file, "b.c");
    assert_eq!(s.persistent.breakpoints[1].line, 20);
    s.apply(StateEvent::BreakpointToggled { id: 9, enabled: false });
    assert!(s.persistent.breakpoints[0].enabled);
    assert_eq!(ids(&s), vec![1, 2]);
    assert_eq!(s.program, ProgramState::NoProgramLoaded);
}

#[test]
fn breakpoint_lookup_by_location() {
    let mut s = DebuggerState::new();
    s.apply(StateEvent::BreakpointAdded { breakpoint: bp(1, "a.c", 10) });
    s.apply(StateEvent::BreakpointAdded { breakpoint: bp(2, "a.c", 12) });
    assert_eq!(s.breakpoint_at("a.c", 12).map(|b| b.id), Some(2));
    assert_eq!(s.breakpoint_at("a.c", 10).map(|b| b.id), Some(1));
    assert!(s.breakpoint_at("a.c", 11).is_none());
    assert!(s.breakpoint_at("b.c", 10).is_none());
}

#[test]
fn collections_are_replaced_wholesale() {
    let mut s = DebuggerState::new();
    s.apply(StateEvent::RegisterNamesReceived { names: vec!["rax".into(), "rbx".into()] });
    s.apply(StateEvent::RegistersUpdated {
        registers: vec![Register { number: 1, name: String::new(), value: "0x2".into() }],
    });
    s.apply(StateEvent::DisasmUpdated {
        lines: vec![AsmLine { addr: 1, offset: 0, inst: "nop".into(), current: false }],
    });
    s.apply(StateEvent::RegistersUpdated {
        registers: vec![Register { number: 0, name: String::new(), value: "0x9".into() }],
    });
    assert_eq!(s.register_names, vec!["rax", "rbx"]);
    assert_eq!(s.registers.len(), 1);
    assert_eq!(s.registers[0].value, "0x9");
    assert_eq!(s.disasm.len(), 1);
    assert_eq!(s.disasm[0].inst, "nop");
}

#[test]
fn invariant_holds_along_a_sequence() {
    let mut s = DebuggerState::new();
    let events = vec![
        StateEvent::BreakpointAdded { breakpoint: bp(1, "a.c", 1) },
        StateEvent::ProgramLoaded { executable: "p".into() },
        StateEvent::BreakpointAdded { breakpoint: bp(1, "a.c", 2) },
        StateEvent::ProgramStarted,
        StateEvent::ProgramPaused { pause: pause_at("a.c", 2) },
        StateEvent::BreakpointAdded { breakpoint: bp(2, "a.c", 3) },
        StateEvent::BreakpointToggled { id: 1, enabled: false },
        StateEvent::BreakpointRemoved { id: 2 },
        StateEvent::ProgramPaused { pause: pause_at("a.c", 3) },
        StateEvent::ProgramExited { code: None },
        StateEvent::ProgramPaused { pause: pause_at("a.c", 4) },
        StateEvent::ProgramStarted,
        StateEvent::BreakpointAdded { breakpoint: bp(2, "a.c", 3) },
        StateEvent::ProgramLoaded { executable: "p".into() },
    ];
    for e in events {
        s.apply(e);
        check_invariant(&s);
    }
    assert_eq!(ids(&s), vec![1, 2]);
    assert_eq!(s.program, ProgramState::ProgramLoaded);
}
