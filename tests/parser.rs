use gdb_frontend::{
    extract_str, parse_line, strip_token, DebuggerEvent, StateEvent, StopReason, UiEvent,
};

fn console_text(event: Option<DebuggerEvent>) -> String {
    match event {
        Some(DebuggerEvent::Ui(UiEvent::ConsoleOutput(t))) => t,
        other => panic!("expected console output, got {:?}", other),
    }
}

#[test]
fn test_strip_token() {
    assert_eq!(strip_token("42^done"), "^done");
    assert_eq!(strip_token("^done"), "^done");
    assert_eq!(
        strip_token("*stopped,reason=\"end-stepping-range\""),
        "*stopped,reason=\"end-stepping-range\""
    );
}

#[test]
fn test_extract_str() {
    let s = r#"number="1",file="main.c",line="42",enabled="y""#;
    assert_eq!(extract_str(s, "number"), Some("1".into()));
    assert_eq!(extract_str(s, "file"), Some("main.c".into()));
    assert_eq!(extract_str(s, "line"), Some("42".into()));
    assert_eq!(extract_str(s, "missing"), None);
}

#[test]
fn test_parse_running() {
    let event = parse_line("*running,thread-id=\"all\"");
    assert!(matches!(
        event,
        Some(DebuggerEvent::State(StateEvent::ProgramStarted))
    ));
}

#[test]
fn test_parse_error() {
    let event = parse_line("^error,msg=\"No symbol table\"");
    assert!(matches!(
        event,
        Some(DebuggerEvent::Ui(UiEvent::GdbError(_)))
    ));
}

#[test]
fn test_console_stream() {
    let event = parse_line("~\"Breakpoint 1 at 0x1234\\n\"");
    assert!(matches!(
        event,
        Some(DebuggerEvent::Ui(UiEvent::ConsoleOutput(_)))
    ));
}

#[test]
fn test_ignore_prompt() {
    assert!(parse_line("(gdb)").is_none());
    assert!(parse_line("").is_none());
}

#[test]
fn strip_token_is_idempotent() {
    for line in ["42^done", "^done", "7", "", "123*running", "(gdb)"] {
        let once = strip_token(line);
        assert_eq!(strip_token(once), once);
    }
    // a line of digits only keeps its digits
    assert_eq!(strip_token("12345"), "12345");
}

#[test]
fn token_does_not_change_the_event() {
    let plain = parse_line("^error,msg=\"bad\"");
    let tokened = parse_line("17^error,msg=\"bad\"");
    match (plain, tokened) {
        (
            Some(DebuggerEvent::Ui(UiEvent::GdbError(a))),
            Some(DebuggerEvent::Ui(UiEvent::GdbError(b))),
        ) => {
            assert_eq!(a, "bad");
            assert_eq!(a, b);
        }
        other => panic!("unexpected {:?}", other),
    }
    assert!(matches!(
        parse_line("3*running,thread-id=\"all\""),
        Some(DebuggerEvent::State(StateEvent::ProgramStarted))
    ));
    assert!(parse_line("99(gdb)").is_none());
}

#[test]
fn console_payload_is_unescaped_interior() {
    let text = console_text(parse_line("~\"Breakpoint 1 at 0x1234\\n\""));
    assert_eq!(text, "Breakpoint 1 at 0x1234\n");
    let text = console_text(parse_line("~\"say \\\"hi\\\"\\tand \\\\ more\""));
    assert_eq!(text, "say \"hi\"\tand \\ more");
    // an unknown escape is kept as written
    let text = console_text(parse_line("~\"a\\qb\""));
    assert_eq!(text, "a\\qb");
}

#[test]
fn target_stream_is_prefixed() {
    let text = console_text(parse_line("@\"hello\\n\""));
    assert_eq!(text, "[target] hello\n");
}

#[test]
fn log_stream_and_unknown_sigils_give_nothing() {
    assert!(parse_line("&\"warning: something\\n\"").is_none());
    assert!(parse_line("+download,{section=\".text\"}").is_none());
    assert!(parse_line("hello").is_none());
    assert!(parse_line("*unknown-class,x=\"1\"").is_none());
    assert!(parse_line("=thread-group-added,id=\"i1\"").is_none());
    assert!(parse_line("^connected").is_none());
}

#[test]
fn running_ignores_extra_fields() {
    assert!(matches!(
        parse_line("*running,thread-id=\"all\",extra=\"x\",more={a=\"b\"}"),
        Some(DebuggerEvent::State(StateEvent::ProgramStarted))
    ));
    assert!(matches!(
        parse_line("*running"),
        Some(DebuggerEvent::State(StateEvent::ProgramStarted))
    ));
    assert!(matches!(
        parse_line("^running"),
        Some(DebuggerEvent::State(StateEvent::ProgramStarted))
    ));
}

#[test]
fn error_message_and_default() {
    match parse_line("^error,msg=\"No symbol table\"") {
        Some(DebuggerEvent::Ui(UiEvent::GdbError(m))) => assert_eq!(m, "No symbol table"),
        other => panic!("unexpected {:?}", other),
    }
    match parse_line("^error") {
        Some(DebuggerEvent::Ui(UiEvent::GdbError(m))) => assert_eq!(m, "GDB error"),
        other => panic!("unexpected {:?}", other),
    }
}

#[test]
fn stopped_at_breakpoint() {
    let line = "*stopped,reason=\"breakpoint-hit\",bkptno=\"3\",thread-id=\"2\",frame={addr=\"0x4005f6\",func=\"main\",file=\"main.c\",fullname=\"/a/main.c\",line=\"10\"}";
    match parse_line(line) {
        Some(DebuggerEvent::State(StateEvent::ProgramPaused { pause })) => {
            assert!(matches!(pause.stop_reason, StopReason::BreakpointHit(3)));
            assert_eq!(pause.thread_id, 2);
            assert_eq!(pause.frame.addr, 0x4005f6);
            assert_eq!(pause.frame.function, "main");
            assert_eq!(pause.frame.file.as_deref(), Some("/a/main.c"));
            assert_eq!(pause.frame.line, Some(10));
            assert_eq!(pause.stack.len(), 1);
            assert_eq!(pause.stack[0].addr, 0x4005f6);
        }
        other => panic!("unexpected {:?}", other),
    }
}

#[test]
fn stop_reasons() {
    let frame = "frame={addr=\"10\",func=\"f\"}";
    let reason = |fields: &str| match parse_line(&format!("*stopped,{fields},{frame}")) {
        Some(DebuggerEvent::State(StateEvent::ProgramPaused { pause })) => pause.stop_reason,
        other => panic!("unexpected {:?}", other),
    };
    assert!(matches!(reason("reason=\"end-stepping-range\""), StopReason::EndStepping));
    assert!(matches!(reason("reason=\"step-over-range\""), StopReason::EndStepping));
    match reason("reason=\"signal-received\",signal-name=\"SIGSEGV\"") {
        StopReason::Signal(s) => assert_eq!(s, "SIGSEGV"),
        other => panic!("unexpected {:?}", other),
    }
    match reason("reason=\"signal-received\"") {
        StopReason::Signal(s) => assert_eq!(s, ""),
        other => panic!("unexpected {:?}", other),
    }
    assert!(matches!(reason("reason=\"exited-normally\""), StopReason::Unknown));
    assert!(matches!(reason("x=\"1\""), StopReason::Unknown));
    assert!(matches!(reason("reason=\"breakpoint-hit\""), StopReason::BreakpointHit(0)));
}

#[test]
fn stopped_frame_defaults() {
    match parse_line("*stopped,frame={addr=\"zz\",file=\"m.c\",line=\"x\"}") {
        Some(DebuggerEvent::State(StateEvent::ProgramPaused { pause })) => {
            assert_eq!(pause.thread_id, 1);
            assert_eq!(pause.frame.addr, 0);
            assert_eq!(pause.frame.function, "??");
            assert_eq!(pause.frame.file.as_deref(), Some("m.c"));
            assert_eq!(pause.frame.line, None);
        }
        other => panic!("unexpected {:?}", other),
    }
    // addresses read with or without the 0x prefix
    match parse_line("*stopped,frame={addr=\"ff\"}") {
        Some(DebuggerEvent::State(StateEvent::ProgramPaused { pause })) => {
            assert_eq!(pause.frame.addr, 255)
        }
        other => panic!("unexpected {:?}", other),
    }
}

#[test]
fn stopped_without_frame_gives_nothing() {
    assert!(parse_line("*stopped,reason=\"exited-normally\"").is_none());
}

#[test]
fn breakpoint_deleted() {
    match parse_line("=breakpoint-deleted,id=\"5\"") {
        Some(DebuggerEvent::State(StateEvent::BreakpointRemoved { id })) => assert_eq!(id, 5),
        other => panic!("unexpected {:?}", other),
    }
    assert!(parse_line("=breakpoint-deleted,id=\"x\"").is_none());
    assert!(parse_line("=breakpoint-deleted").is_none());
}

#[test]
fn breakpoint_created_and_modified() {
    let fields = "bkpt={number=\"2\",type=\"breakpoint\",enabled=\"n\",file=\"m.c\",fullname=\"/s/m.c\",line=\"7\"}";
    for class in ["=breakpoint-created", "=breakpoint-modified", "^done"] {
        match parse_line(&format!("{class},{fields}")) {
            Some(DebuggerEvent::State(StateEvent::BreakpointAdded { breakpoint })) => {
                assert_eq!(breakpoint.id, 2);
                assert_eq!(breakpoint.file, "/s/m.c");
                assert_eq!(breakpoint.line, 7);
                assert!(!breakpoint.enabled);
            }
            other => panic!("unexpected {:?}", other),
        }
    }
    // without a file the file is empty
    for line in [
        "=breakpoint-created,bkpt={number=\"4\",line=\"12\",enabled=\"y\"}",
        "^done,bkpt={number=\"4\",line=\"12\",enabled=\"y\"}",
    ] {
        match parse_line(line) {
            Some(DebuggerEvent::State(StateEvent::BreakpointAdded { breakpoint })) => {
                assert_eq!(breakpoint.id, 4);
                assert_eq!(breakpoint.file, "");
                assert_eq!(breakpoint.line, 12);
                assert!(breakpoint.enabled);
            }
            other => panic!("unexpected {:?}", other),
        }
    }
    // without a block there is no breakpoint
    assert!(parse_line("=breakpoint-created,number=\"2\"").is_none());
    match parse_line("=breakpoint-created,bkpt={file=\"a.c\"}") {
        Some(DebuggerEvent::State(StateEvent::BreakpointAdded { breakpoint })) => {
            assert_eq!(breakpoint.id, 0);
            assert_eq!(breakpoint.line, 0);
            assert!(breakpoint.enabled);
        }
        other => panic!("unexpected {:?}", other),
    }
}

#[test]
fn quoted_delimiters_do_not_break_siblings() {
    let line = "*stopped,reason=\"signal-received\",signal-name=\"a{b}c,\\\"d\\\"\",frame={addr=\"0x10\",func=\"f{x}\",args=[{name=\"s\",value=\"\\\"}]{\\\"\"}],file=\"q.c\",line=\"4\"},thread-id=\"9\"";
    match parse_line(line) {
        Some(DebuggerEvent::State(StateEvent::ProgramPaused { pause })) => {
            match &pause.stop_reason {
                StopReason::Signal(s) => assert_eq!(s, "a{b}c,\"d\""),
                other => panic!("unexpected {:?}", other),
            }
            assert_eq!(pause.frame.function, "f{x}");
            assert_eq!(pause.frame.addr, 16);
            assert_eq!(pause.frame.file.as_deref(), Some("q.c"));
            assert_eq!(pause.frame.line, Some(4));
            assert_eq!(pause.thread_id, 9);
        }
        other => panic!("unexpected {:?}", other),
    }
}

#[test]
fn done_with_locals() {
    let line = "^done,variables=[{name=\"x\",type=\"int\",value=\"1\"},{name=\"s\",type=\"char *\",value=\"0x1 \\\"{hi}\\\"\"},{name=\"\",value=\"2\"}]";
    match parse_line(line) {
        Some(DebuggerEvent::State(StateEvent::LocalsUpdated { vars })) => {
            assert_eq!(vars.len(), 2);
            assert_eq!(vars[0].name, "x");
            assert_eq!(vars[0].type_, "int");
            assert_eq!(vars[0].value, "1");
            assert_eq!(vars[1].name, "s");
            assert_eq!(vars[1].value, "0x1 \"{hi}\"");
        }
        other => panic!("unexpected {:?}", other),
    }
    // an empty list gives nothing
    assert!(parse_line("^done,variables=[]").is_none());
    // a bare record without braces is read as one variable
    match parse_line("^done,variables=[name=\"y\",value=\"3\"]") {
        Some(DebuggerEvent::State(StateEvent::LocalsUpdated { vars })) => {
            assert_eq!(vars.len(), 1);
            assert_eq!(vars[0].name, "y");
            assert_eq!(vars[0].type_, "");
        }
        other => panic!("unexpected {:?}", other),
    }
}

#[test]
fn done_with_register_names_and_values() {
    match parse_line("^done,register-names=[\"rax\",\"rbx\",\"\",\"rip\"]") {
        Some(DebuggerEvent::State(StateEvent::RegisterNamesReceived { names })) => {
            assert_eq!(names, vec!["rax", "rbx", "", "rip"]);
        }
        other => panic!("unexpected {:?}", other),
    }
    match parse_line("^done,register-values=[{number=\"0\",value=\"0x1c\"},{number=\"16\",value=\"0x401000\"}]") {
        Some(DebuggerEvent::State(StateEvent::RegistersUpdated { registers })) => {
            assert_eq!(registers.len(), 2);
            assert_eq!(registers[0].number, 0);
            assert_eq!(registers[0].value, "0x1c");
            assert_eq!(registers[0].name, "");
            assert_eq!(registers[1].number, 16);
            assert_eq!(registers[1].value, "0x401000");
        }
        other => panic!("unexpected {:?}", other),
    }
    assert!(parse_line("^done,register-values=[]").is_none());
}

#[test]
fn done_with_disassembly() {
    let line = "^done,asm_insns=[{address=\"0x0000000000401126\",func-name=\"main\",offset=\"4\",inst=\"mov    $0x0,%eax\"},{address=\"0x40112b\",offset=\"9\",inst=\"ret\"}]";
    match parse_line(line) {
        Some(DebuggerEvent::State(StateEvent::DisasmUpdated { lines })) => {
            assert_eq!(lines.len(), 2);
            assert_eq!(lines[0].addr, 0x401126);
            assert_eq!(lines[0].offset, 4);
            assert_eq!(lines[0].inst, "mov    $0x0,%eax");
            assert!(!lines[0].current);
            assert_eq!(lines[1].addr, 0x40112b);
            assert_eq!(lines[1].inst, "ret");
        }
        other => panic!("unexpected {:?}", other),
    }
}

#[test]
fn done_and_exit() {
    assert!(parse_line("^done").is_none());
    assert!(parse_line("^done,value=\"3\"").is_none());
    assert!(matches!(
        parse_line("^exit"),
        Some(DebuggerEvent::State(StateEvent::ProgramExited { code: None }))
    ));
}

#[test]
fn numbers_that_do_not_fit_use_defaults() {
    match parse_line("*stopped,thread-id=\"4294967296\",frame={addr=\"0x1ffffffffffffffff\",line=\"4294967295\"}") {
        Some(DebuggerEvent::State(StateEvent::ProgramPaused { pause })) => {
            assert_eq!(pause.thread_id, 1);
            assert_eq!(pause.frame.addr, 0);
            assert_eq!(pause.frame.line, Some(4294967295));
        }
        other => panic!("unexpected {:?}", other),
    }
    match parse_line("*stopped,thread-id=\"+7\",frame={addr=\"0xFFFFFFFFFFFFFFFF\"}") {
        Some(DebuggerEvent::State(StateEvent::ProgramPaused { pause })) => {
            assert_eq!(pause.thread_id, 7);
            assert_eq!(pause.frame.addr, u64::MAX);
        }
        other => panic!("unexpected {:?}", other),
    }
}

#[test]
fn extract_str_unescapes_and_skips_quoted_delimiters() {
    let s = r#"msg="a {b}, \"c\" \\ d\n",next="x""#;
    assert_eq!(extract_str(s, "msg"), Some("a {b}, \"c\" \\ d\n".into()));
    assert_eq!(extract_str(s, "next"), Some("x".into()));
    // an unterminated value gives nothing
    assert_eq!(extract_str("k=\"abc", "k"), None);
}

#[test]
fn scalar_lookup_takes_first_occurrence_of_key() {
    // `k2="` first appears where the value of `a` ends
    let s = r#"a="k2=",k2="w""#;
    assert_eq!(extract_str(s, "a"), Some("k2=".into()));
    assert_eq!(extract_str(s, "k2"), Some(",k2=".into()));
}

#[test]
fn single_bare_records_are_read_as_one() {
    match parse_line("^done,register-values={number=\"0\",value=\"0x1\"}") {
        Some(DebuggerEvent::State(StateEvent::RegistersUpdated { registers })) => {
            assert_eq!(registers.len(), 1);
            assert_eq!(registers[0].number, 0);
            assert_eq!(registers[0].value, "0x1");
        }
        other => panic!("unexpected {:?}", other),
    }
    match parse_line("^done,asm_insns={address=\"0x10\",offset=\"2\",inst=\"nop\"}") {
        Some(DebuggerEvent::State(StateEvent::DisasmUpdated { lines })) => {
            assert_eq!(lines.len(), 1);
            assert_eq!(lines[0].addr, 16);
            assert_eq!(lines[0].offset, 2);
            assert_eq!(lines[0].inst, "nop");
        }
        other => panic!("unexpected {:?}", other),
    }
    assert!(parse_line("^done,asm_insns=[]").is_none());
}
