//! Commands a front end can ask of the debugger.
use vstd::prelude::*;

verus! {

/// The closed command vocabulary.
#[derive(Clone, Debug)]
pub enum Command {
    Run,
    Continue,
    Step,
    Next,
    Finish,
    Interrupt,
    Restart,
    AddBreakpoint { file: String, line: u32 },
    RemoveBreakpoint(u32),
    ToggleBreakpoint { id: u32, enable: bool },
    LoadExecutable(String),
    RequestLocals,
    RequestStack,
    RequestRegisterNames,
    RequestRegisters,
    RequestDisasm,
    Evaluate(String),
    Raw(String),
}

pub enum CommandView {
    Run,
    Continue,
    Step,
    Next,
    Finish,
    Interrupt,
    Restart,
    AddBreakpoint { file: Seq<char>, line: u32 },
    RemoveBreakpoint(u32),
    ToggleBreakpoint { id: u32, enable: bool },
    LoadExecutable(Seq<char>),
    RequestLocals,
    RequestStack,
    RequestRegisterNames,
    RequestRegisters,
    RequestDisasm,
    Evaluate(Seq<char>),
    Raw(Seq<char>),
}

impl DeepView for Command {
    type V = CommandView;

    open spec fn deep_view(&self) -> CommandView {
        match self {
            Command::Run => CommandView::Run,
            Command::Continue => CommandView::Continue,
            Command::Step => CommandView::Step,
            Command::Next => CommandView::Next,
            Command::Finish => CommandView::Finish,
            Command::Interrupt => CommandView::Interrupt,
            Command::Restart => CommandView::Restart,
            Command::AddBreakpoint { file, line } => CommandView::AddBreakpoint {
                file: file@,
                line: *line,
            },
            Command::RemoveBreakpoint(id) => CommandView::RemoveBreakpoint(*id),
            Command::ToggleBreakpoint { id, enable } => CommandView::ToggleBreakpoint {
                id: *id,
                enable: *enable,
            },
            Command::LoadExecutable(p) => CommandView::LoadExecutable(p@),
            Command::RequestLocals => CommandView::RequestLocals,
            Command::RequestStack => CommandView::RequestStack,
            Command::RequestRegisterNames => CommandView::RequestRegisterNames,
            Command::RequestRegisters => CommandView::RequestRegisters,
            Command::RequestDisasm => CommandView::RequestDisasm,
            Command::Evaluate(e) => CommandView::Evaluate(e@),
            Command::Raw(s) => CommandView::Raw(s@),
        }
    }
}

} // verus!
