//! Encoding of commands as MI command text.
use vstd::prelude::*;

use crate::command::{Command, CommandView};
use crate::text::{chars_of, decimal, decimal_chars, push_all, string_of};

verus! {

/// The MI text of a command.
pub open spec fn mi_text(c: CommandView) -> Seq<char> {
    match c {
        CommandView::Run => "-exec-run"@,
        CommandView::Continue => "-exec-continue"@,
        CommandView::Step => "-exec-step"@,
        CommandView::Next => "-exec-next"@,
        CommandView::Finish => "-exec-finish"@,
        CommandView::Interrupt => "-exec-interrupt"@,
        CommandView::Restart => "-exec-run"@,
        CommandView::AddBreakpoint { file, line } => "-break-insert "@ + file + seq![':']
            + decimal(line as nat),
        CommandView::RemoveBreakpoint(id) => "-break-delete "@ + decimal(id as nat),
        CommandView::ToggleBreakpoint { id, enable } => if enable {
            "-break-enable "@ + decimal(id as nat)
        } else {
            "-break-disable "@ + decimal(id as nat)
        },
        CommandView::LoadExecutable(path) => "-file-exec-and-symbols "@ + path,
        CommandView::RequestLocals => "-stack-list-variables --all-values"@,
        CommandView::RequestStack => "-stack-list-frames"@,
        CommandView::RequestRegisterNames => "-data-list-register-names"@,
        CommandView::RequestRegisters => "-data-list-register-values x"@,
        CommandView::RequestDisasm => "-data-disassemble -s $pc -e \"$pc + 64\" -- 0"@,
        CommandView::Evaluate(expr) => "-data-evaluate-expression "@ + expr,
        CommandView::Raw(s) => s,
    }
}

/// `prefix` followed by the decimal digits of `n`.
fn with_number(prefix: &str, n: u32) -> (r: String)
    ensures
        r@ == prefix@ + decimal(n as nat),
{
    let mut out = chars_of(prefix);
    let digits = decimal_chars(n as u64);
    push_all(&mut out, digits.as_slice());
    string_of(out.as_slice())
}

/// `prefix` followed by `text`.
fn with_text(prefix: &str, text: &String) -> (r: String)
    ensures
        r@ == prefix@ + text@,
{
    let mut out = chars_of(prefix);
    let t = chars_of(text.as_str());
    push_all(&mut out, t.as_slice());
    string_of(out.as_slice())
}

/// The MI command text for `cmd`, without token or line ending.
pub fn command_to_mi(cmd: &Command) -> (r: String)
    ensures
        r@ == mi_text(cmd.deep_view()),
{
    match cmd {
        Command::Run => "-exec-run".to_owned(),
        Command::Continue => "-exec-continue".to_owned(),
        Command::Step => "-exec-step".to_owned(),
        Command::Next => "-exec-next".to_owned(),
        Command::Finish => "-exec-finish".to_owned(),
        Command::Interrupt => "-exec-interrupt".to_owned(),
        Command::Restart => "-exec-run".to_owned(),
        Command::AddBreakpoint { file, line } => {
            let mut out = chars_of("-break-insert ");
            let f = chars_of(file.as_str());
            push_all(&mut out, f.as_slice());
            out.push(':');
            let digits = decimal_chars(*line as u64);
            push_all(&mut out, digits.as_slice());
            proof {
                assert(out@ =~= "-break-insert "@ + file@ + seq![':'] + decimal(*line as nat));
            }
            string_of(out.as_slice())
        },
        Command::RemoveBreakpoint(id) => with_number("-break-delete ", *id),
        Command::ToggleBreakpoint { id, enable } => {
            if *enable {
                with_number("-break-enable ", *id)
            } else {
                with_number("-break-disable ", *id)
            }
        },
        Command::LoadExecutable(path) => with_text("-file-exec-and-symbols ", path),
        Command::RequestLocals => "-stack-list-variables --all-values".to_owned(),
        Command::RequestStack => "-stack-list-frames".to_owned(),
        Command::RequestRegisterNames => "-data-list-register-names".to_owned(),
        Command::RequestRegisters => "-data-list-register-values x".to_owned(),
        Command::RequestDisasm => "-data-disassemble -s $pc -e \"$pc + 64\" -- 0".to_owned(),
        Command::Evaluate(expr) => with_text("-data-evaluate-expression ", expr),
        Command::Raw(s) => s.clone(),
    }
}

} // verus!
