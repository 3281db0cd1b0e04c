//! A front-end core for a command-line debugger driven through its machine
//! interface: decoding of output lines into events, encoding of commands,
//! and the state reducer those events drive.
use vstd::prelude::*;

pub mod command;
pub mod frontend;
pub mod parser;
pub mod registers;
pub mod session;
pub mod state;
pub mod text;
pub mod writer;

pub use command::Command;
pub use frontend::{App, RegisterRow};
pub use parser::{extract_str, parse_line, strip_token};
pub use registers::{display_order, is_general_purpose};
pub use session::{
    follow_up_commands, launch_args, line_events, loaded_event, reader_line, CommandSequencer,
    Outgoing,
};
pub use state::{
    AsmLine, Breakpoint, DebuggerEvent, DebuggerState, Frame, PauseState, PersistentState,
    ProgramState, Register, StateEvent, StopReason, UiEvent, Variable,
};
pub use writer::command_to_mi;

verus! {

} // verus!
