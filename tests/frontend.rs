use gdb_frontend::{
    parse_line, App, Command, DebuggerEvent, DebuggerState, ProgramState, StateEvent, UiEvent,
};

#[test]
fn app_starts_with_given_state_and_empty_log() {
    let app = App::new(DebuggerState::new());
    assert!(app.console_log.is_empty());
    assert_eq!(app.state.program, ProgramState::NoProgramLoaded);
}

#[test]
fn app_logs_console_text_and_errors() {
    let mut app = App::new(DebuggerState::new());
    let q = app.handle_event(DebuggerEvent::Ui(UiEvent::ConsoleOutput("hello".into())));
    assert!(q.is_empty());
    let q = app.handle_event(DebuggerEvent::Ui(UiEvent::GdbError("No symbol table".into())));
    assert!(q.is_empty());
    assert_eq!(app.console_log, vec!["hello", "[ERROR] No symbol table"]);
    assert_eq!(app.state.program, ProgramState::NoProgramLoaded);
}

#[test]
fn app_applies_state_events_and_asks_for_more() {
    let mut app = App::new(DebuggerState::new());
    let q = app.handle_event(DebuggerEvent::State(StateEvent::ProgramLoaded {
        executable: "a.out".into(),
    }));
    assert_eq!(app.state.program, ProgramState::ProgramLoaded);
    assert_eq!(q.len(), 1);
    assert!(matches!(q[0], Command::RequestRegisterNames));
    let stop = parse_line("*stopped,reason=\"end-stepping-range\",frame={addr=\"0x1\",func=\"f\",file=\"x.c\",line=\"2\"}")
        .expect("a stop event");
    let q = app.handle_event(stop);
    assert!(app.state.is_paused());
    assert_eq!(app.state.current_file(), Some("x.c"));
    assert_eq!(q.len(), 3);
    assert!(app.console_log.is_empty());
}

fn reg(number: u32, value: &str) -> gdb_frontend::Register {
    gdb_frontend::Register { number, name: String::new(), value: value.into() }
}

#[test]
fn register_table_is_named_and_ordered() {
    let mut app = App::new(DebuggerState::new());
    app.handle_event(DebuggerEvent::State(StateEvent::RegisterNamesReceived {
        names: vec!["rip".into(), "xmm0".into(), "rbx".into(), "rax".into(), "cs".into()],
    }));
    app.handle_event(DebuggerEvent::State(StateEvent::RegistersUpdated {
        registers: vec![reg(0, "0x10"), reg(1, "0x0"), reg(2, "0x2"), reg(3, "0x3"), reg(4, "0x33"), reg(7, "0x7")],
    }));
    let rows = app.register_rows();
    let names: Vec<&str> = rows.iter().map(|r| r.name.as_str()).collect();
    // x86 registers by rank, then the rest in the order received
    assert_eq!(names, vec!["rax", "rbx", "rip", "xmm0", "cs", "#7"]);
    assert_eq!(rows[0].value, "0x3");
    assert_eq!(rows[5].value, "0x7");
}

#[test]
fn register_table_keeps_thirty_rows() {
    let mut app = App::new(DebuggerState::new());
    let registers: Vec<_> = (0..40).map(|n| reg(n, "0")).collect();
    app.handle_event(DebuggerEvent::State(StateEvent::RegistersUpdated { registers }));
    let rows = app.register_rows();
    assert_eq!(rows.len(), 30);
    assert_eq!(rows[0].name, "#0");
    assert_eq!(rows[29].name, "#29");
}
