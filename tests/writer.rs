use gdb_frontend::{command_to_mi, Command};

#[test]
fn test_basic_commands() {
    assert_eq!(command_to_mi(&Command::Run), "-exec-run");
    assert_eq!(command_to_mi(&Command::Continue), "-exec-continue");
    assert_eq!(command_to_mi(&Command::Next), "-exec-next");
    assert_eq!(command_to_mi(&Command::Step), "-exec-step");
    assert_eq!(command_to_mi(&Command::Finish), "-exec-finish");
}

#[test]
fn test_breakpoint() {
    assert_eq!(
        command_to_mi(&Command::AddBreakpoint {
            file: "main.c".into(),
            line: 43
        }),
        "-break-insert main.c:43"
    );
    assert_eq!(
        command_to_mi(&Command::RemoveBreakpoint(3)),
        "-break-delete 3"
    );
}

#[test]
fn test_raw() {
    assert_eq!(
        command_to_mi(&Command::Raw("info locals".into())),
        "info locals"
    );
}

#[test]
fn other_commands() {
    assert_eq!(command_to_mi(&Command::Interrupt), "-exec-interrupt");
    assert_eq!(command_to_mi(&Command::Restart), "-exec-run");
    assert_eq!(
        command_to_mi(&Command::ToggleBreakpoint { id: 12, enable: true }),
        "-break-enable 12"
    );
    assert_eq!(
        command_to_mi(&Command::ToggleBreakpoint { id: 0, enable: false }),
        "-break-disable 0"
    );
    assert_eq!(
        command_to_mi(&Command::LoadExecutable("/tmp/a.out".into())),
        "-file-exec-and-symbols /tmp/a.out"
    );
    assert_eq!(
        command_to_mi(&Command::RequestLocals),
        "-stack-list-variables --all-values"
    );
    assert_eq!(command_to_mi(&Command::RequestStack), "-stack-list-frames");
    assert_eq!(
        command_to_mi(&Command::RequestRegisterNames),
        "-data-list-register-names"
    );
    assert_eq!(
        command_to_mi(&Command::RequestRegisters),
        "-data-list-register-values x"
    );
    assert_eq!(
        command_to_mi(&Command::RequestDisasm),
        "-data-disassemble -s $pc -e \"$pc + 64\" -- 0"
    );
    assert_eq!(
        command_to_mi(&Command::Evaluate("x + 1".into())),
        "-data-evaluate-expression x + 1"
    );
    assert_eq!(
        command_to_mi(&Command::RemoveBreakpoint(4294967295)),
        "-break-delete 4294967295"
    );
}
