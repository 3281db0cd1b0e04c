//! Decisions of the process supervisor: how the debugger is launched, how
//! commands are framed on its input, and what each output line becomes.
//! The supervisor itself (pipes, reader task, control loop) performs them.
use vstd::prelude::*;

use crate::command::{Command, CommandView};
use crate::parser::{event_view, line_event, parse_line};
use crate::state::{DebuggerEvent, EventView, StateEvent, StateEventView, UiEvent, UiEventView};
use crate::text::{chars_of, decimal, decimal_chars, push_all, string_of};
use crate::writer::{command_to_mi, mi_text};

verus! {

/// Arguments the debugger is launched with: machine-interface mode, quiet,
/// and the executable if one is given.
pub open spec fn launch_args_of(executable: Option<Seq<char>>) -> Seq<Seq<char>> {
    seq!["--interpreter=mi"@, "--quiet"@] + match executable {
        Some(e) => seq![e],
        None => seq![],
    }
}

pub fn launch_args(executable: Option<&str>) -> (r: Vec<String>)
    ensures
        r.deep_view() == launch_args_of(executable.deep_view()),
{
    let mut args: Vec<String> = Vec::new();
    args.push("--interpreter=mi".to_owned());
    args.push("--quiet".to_owned());
    if let Some(e) = executable {
        args.push(e.to_owned());
    }
    proof {
        assert(args.deep_view() =~= launch_args_of(executable.deep_view()));
    }
    args
}

/// The event announcing a freshly launched session's executable.
pub fn loaded_event(executable: Option<&str>) -> (r: Option<DebuggerEvent>)
    ensures
        event_view(r) == match executable {
            Some(e) => Some(EventView::State(StateEventView::ProgramLoaded { executable: e@ })),
            None => None,
        },
{
    match executable {
        Some(e) => Some(DebuggerEvent::State(StateEvent::ProgramLoaded { executable: e.to_owned() })),
        None => None,
    }
}

/// `s` without any trailing `c`.
pub open spec fn strip_trailing(s: Seq<char>, c: char) -> Seq<char>
    decreases s.len(),
{
    if s.len() > 0 && s.last() == c {
        strip_trailing(s.drop_last(), c)
    } else {
        s
    }
}

/// What the reader forwards of one raw line: the line without its line
/// ending; nothing if that is empty.
pub open spec fn forwarded(raw: Seq<char>) -> Option<Seq<char>> {
    let t = strip_trailing(strip_trailing(raw, '\n'), '\r');
    if t.len() == 0 {
        None
    } else {
        Some(t)
    }
}

fn drop_trailing(s: &[char], c: char) -> (r: &[char])
    ensures
        r@ == strip_trailing(s@, c),
{
    let mut t = s;
    while t.len() > 0 && t[t.len() - 1] == c
        invariant
            strip_trailing(t@, c) == strip_trailing(s@, c),
        decreases t@.len(),
    {
        let n = t.len();
        proof {
            assert(t@.subrange(0, n - 1) =~= t@.drop_last());
        }
        t = &t[0..n - 1];
    }
    t
}

/// The line the reader forwards for one raw line read from the debugger.
pub fn reader_line(raw: &str) -> (r: Option<String>)
    ensures
        r.deep_view() == forwarded(raw@),
{
    let cs = chars_of(raw);
    let t = drop_trailing(cs.as_slice(), '\n');
    let t = drop_trailing(t, '\r');
    if t.len() == 0 {
        None
    } else {
        Some(string_of(t))
    }
}

/// Events for one forwarded line, in order: the line echoed to the console,
/// then what it decodes to, if anything.
pub open spec fn events_for_line(line: Seq<char>) -> Seq<EventView> {
    seq![EventView::Ui(UiEventView::ConsoleOutput(line))] + match line_event(line) {
        Some(e) => seq![e],
        None => seq![],
    }
}

pub fn line_events(line: &str) -> (r: Vec<DebuggerEvent>)
    ensures
        r.deep_view() == events_for_line(line@),
{
    let mut out: Vec<DebuggerEvent> = Vec::new();
    out.push(DebuggerEvent::Ui(UiEvent::ConsoleOutput(line.to_owned())));
    let parsed = parse_line(line);
    if let Some(e) = parsed {
        out.push(e);
    }
    proof {
        assert(out.deep_view() =~= events_for_line(line@));
    }
    out
}

/// A command as written to the debugger, and its echo on the console.
pub struct Outgoing {
    pub wire: String,
    pub echo: DebuggerEvent,
}

/// Assigns increasing correlation tokens to outgoing commands, from 1.
pub struct CommandSequencer {
    pub next: u64,
}

impl CommandSequencer {
    pub fn new() -> (r: Self)
        ensures
            r.next == 1,
    {
        CommandSequencer { next: 1 }
    }

    /// Frames `cmd` as `<token><mi>\n` and takes the next token.
    pub fn frame(&mut self, cmd: &Command) -> (r: Outgoing)
        requires
            old(self).next < u64::MAX,
        ensures
            final(self).next == old(self).next + 1,
            r.wire@ == decimal(old(self).next as nat) + mi_text(cmd.deep_view()) + seq!['\n'],
            r.echo.deep_view() == EventView::Ui(
                UiEventView::ConsoleOutput("> "@ + mi_text(cmd.deep_view())),
            ),
    {
        let mi = command_to_mi(cmd);
        let m = chars_of(mi.as_str());
        let mut wire = decimal_chars(self.next);
        push_all(&mut wire, m.as_slice());
        wire.push('\n');
        let mut echo = chars_of("> ");
        push_all(&mut echo, m.as_slice());
        self.next = self.next + 1;
        Outgoing {
            wire: string_of(wire.as_slice()),
            echo: DebuggerEvent::Ui(UiEvent::ConsoleOutput(string_of(echo.as_slice()))),
        }
    }
}

/// Queries a front end issues after applying an event: register names once
/// a program is loaded; locals, registers and disassembly at every pause.
pub open spec fn follow_ups(e: StateEventView) -> Seq<CommandView> {
    match e {
        StateEventView::ProgramLoaded { .. } => seq![CommandView::RequestRegisterNames],
        StateEventView::ProgramPaused { .. } => seq![
            CommandView::RequestLocals,
            CommandView::RequestRegisters,
            CommandView::RequestDisasm,
        ],
        _ => seq![],
    }
}

pub fn follow_up_commands(event: &StateEvent) -> (r: Vec<Command>)
    ensures
        r.deep_view() == follow_ups(event.deep_view()),
{
    let mut out: Vec<Command> = Vec::new();
    match event {
        StateEvent::ProgramLoaded { .. } => {
            out.push(Command::RequestRegisterNames);
        },
        StateEvent::ProgramPaused { .. } => {
            out.push(Command::RequestLocals);
            out.push(Command::RequestRegisters);
            out.push(Command::RequestDisasm);
        },
        _ => {},
    }
    proof {
        assert(out.deep_view() =~= follow_ups(event.deep_view()));
    }
    out
}

} // verus!
