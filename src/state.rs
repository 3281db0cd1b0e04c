//! Debugger state, the events that change it, and the reducer that is the
//! single place where it changes.
use vstd::prelude::*;

use crate::text::{chars_of, same_chars};

verus! {

// ───────────────────────────── data ─────────────────────────────

/// One entry of a call stack.
#[derive(Clone, Debug)]
pub struct Frame {
    pub addr: u64,
    pub function: String,
    pub file: Option<String>,
    pub line: Option<u32>,
}

/// A breakpoint as the debugger reports it; `id` is its key.
#[derive(Clone, Debug)]
pub struct Breakpoint {
    pub id: u32,
    pub file: String,
    pub line: u32,
    pub enabled: bool,
}

/// A snapshot of one local variable.
#[derive(Clone, Debug)]
pub struct Variable {
    pub name: String,
    pub value: String,
    pub type_: String,
}

/// One register value; `name` is filled in by whoever holds the name table.
#[derive(Clone, Debug)]
pub struct Register {
    pub number: u32,
    pub name: String,
    pub value: String,
}

/// One disassembled instruction.
#[derive(Clone, Debug)]
pub struct AsmLine {
    pub addr: u64,
    pub offset: u32,
    pub inst: String,
    pub current: bool,
}

/// Why the target stopped.
#[derive(Clone, Debug)]
pub enum StopReason {
    BreakpointHit(u32),
    EndStepping,
    Signal(String),
    Unknown,
}

/// What is known while the target is stopped.
#[derive(Clone, Debug)]
pub struct PauseState {
    pub thread_id: u32,
    pub frame: Frame,
    pub stack: Vec<Frame>,
    pub stop_reason: StopReason,
}

/// The execution phase.
#[derive(Clone, Copy, Debug, PartialEq, Eq, Structural)]
pub enum ProgramState {
    NoProgramLoaded,
    ProgramLoaded,
    Running,
    Paused,
    Exited { code: Option<i32> },
}

/// State that survives runs of the target.
#[derive(Clone, Debug)]
pub struct PersistentState {
    pub executable: Option<String>,
    pub breakpoints: Vec<Breakpoint>,
}

/// Everything the debugger front end knows.
#[derive(Clone, Debug)]
pub struct DebuggerState {
    pub program: ProgramState,
    pub pause: Option<PauseState>,
    pub locals: Vec<Variable>,
    pub registers: Vec<Register>,
    pub register_names: Vec<String>,
    pub disasm: Vec<AsmLine>,
    pub persistent: PersistentState,
}

/// Events that change the state.
#[derive(Clone, Debug)]
pub enum StateEvent {
    ProgramLoaded { executable: String },
    ProgramStarted,
    ProgramPaused { pause: PauseState },
    ProgramExited { code: Option<i32> },
    BreakpointAdded { breakpoint: Breakpoint },
    BreakpointRemoved { id: u32 },
    BreakpointToggled { id: u32, enabled: bool },
    LocalsUpdated { vars: Vec<Variable> },
    RegisterNamesReceived { names: Vec<String> },
    RegistersUpdated { registers: Vec<Register> },
    DisasmUpdated { lines: Vec<AsmLine> },
}

/// Transient notifications, never kept in the state.
#[derive(Clone, Debug)]
pub enum UiEvent {
    ConsoleOutput(String),
    GdbError(String),
}

/// Anything the core hands to its consumer.
#[derive(Clone, Debug)]
pub enum DebuggerEvent {
    State(StateEvent),
    Ui(UiEvent),
}

// ───────────────────────────── models ─────────────────────────────
//
// Each data type above is seen in contracts through a model that holds its
// text as `Seq<char>` and its vectors as `Seq`s of models.

pub struct FrameView {
    pub addr: u64,
    pub function: Seq<char>,
    pub file: Option<Seq<char>>,
    pub line: Option<u32>,
}

pub struct BreakpointView {
    pub id: u32,
    pub file: Seq<char>,
    pub line: u32,
    pub enabled: bool,
}

pub struct VariableView {
    pub name: Seq<char>,
    pub value: Seq<char>,
    pub type_: Seq<char>,
}

pub struct RegisterView {
    pub number: u32,
    pub name: Seq<char>,
    pub value: Seq<char>,
}

pub struct AsmLineView {
    pub addr: u64,
    pub offset: u32,
    pub inst: Seq<char>,
    pub current: bool,
}

pub enum StopReasonView {
    BreakpointHit(u32),
    EndStepping,
    Signal(Seq<char>),
    Unknown,
}

pub struct PauseView {
    pub thread_id: u32,
    pub frame: FrameView,
    pub stack: Seq<FrameView>,
    pub stop_reason: StopReasonView,
}

pub enum StateEventView {
    ProgramLoaded { executable: Seq<char> },
    ProgramStarted,
    ProgramPaused { pause: PauseView },
    ProgramExited { code: Option<i32> },
    BreakpointAdded { breakpoint: BreakpointView },
    BreakpointRemoved { id: u32 },
    BreakpointToggled { id: u32, enabled: bool },
    LocalsUpdated { vars: Seq<VariableView> },
    RegisterNamesReceived { names: Seq<Seq<char>> },
    RegistersUpdated { registers: Seq<RegisterView> },
    DisasmUpdated { lines: Seq<AsmLineView> },
}

pub enum UiEventView {
    ConsoleOutput(Seq<char>),
    GdbError(Seq<char>),
}

pub enum EventView {
    State(StateEventView),
    Ui(UiEventView),
}

pub struct DebuggerStateView {
    pub program: ProgramState,
    pub pause: Option<PauseView>,
    pub locals: Seq<VariableView>,
    pub registers: Seq<RegisterView>,
    pub register_names: Seq<Seq<char>>,
    pub disasm: Seq<AsmLineView>,
    pub executable: Option<Seq<char>>,
    pub breakpoints: Seq<BreakpointView>,
}

impl DeepView for Frame {
    type V = FrameView;

    open spec fn deep_view(&self) -> FrameView {
        FrameView {
            addr: self.addr,
            function: self.function@,
            file: self.file.deep_view(),
            line: self.line,
        }
    }
}

impl DeepView for Breakpoint {
    type V = BreakpointView;

    open spec fn deep_view(&self) -> BreakpointView {
        BreakpointView { id: self.id, file: self.file@, line: self.line, enabled: self.enabled }
    }
}

impl DeepView for Variable {
    type V = VariableView;

    open spec fn deep_view(&self) -> VariableView {
        VariableView { name: self.name@, value: self.value@, type_: self.type_@ }
    }
}

impl DeepView for Register {
    type V = RegisterView;

    open spec fn deep_view(&self) -> RegisterView {
        RegisterView { number: self.number, name: self.name@, value: self.value@ }
    }
}

impl DeepView for AsmLine {
    type V = AsmLineView;

    open spec fn deep_view(&self) -> AsmLineView {
        AsmLineView {
            addr: self.addr,
            offset: self.offset,
            inst: self.inst@,
            current: self.current,
        }
    }
}

impl DeepView for StopReason {
    type V = StopReasonView;

    open spec fn deep_view(&self) -> StopReasonView {
        match self {
            StopReason::BreakpointHit(id) => StopReasonView::BreakpointHit(*id),
            StopReason::EndStepping => StopReasonView::EndStepping,
            StopReason::Signal(s) => StopReasonView::Signal(s@),
            StopReason::Unknown => StopReasonView::Unknown,
        }
    }
}

impl DeepView for PauseState {
    type V = PauseView;

    open spec fn deep_view(&self) -> PauseView {
        PauseView {
            thread_id: self.thread_id,
            frame: self.frame.deep_view(),
            stack: self.stack.deep_view(),
            stop_reason: self.stop_reason.deep_view(),
        }
    }
}

impl DeepView for StateEvent {
    type V = StateEventView;

    open spec fn deep_view(&self) -> StateEventView {
        match self {
            StateEvent::ProgramLoaded { executable } => StateEventView::ProgramLoaded {
                executable: executable@,
            },
            StateEvent::ProgramStarted => StateEventView::ProgramStarted,
            StateEvent::ProgramPaused { pause } => StateEventView::ProgramPaused {
                pause: pause.deep_view(),
            },
            StateEvent::ProgramExited { code } => StateEventView::ProgramExited { code: *code },
            StateEvent::BreakpointAdded { breakpoint } => StateEventView::BreakpointAdded {
                breakpoint: breakpoint.deep_view(),
            },
            StateEvent::BreakpointRemoved { id } => StateEventView::BreakpointRemoved { id: *id },
            StateEvent::BreakpointToggled { id, enabled } => StateEventView::BreakpointToggled {
                id: *id,
                enabled: *enabled,
            },
            StateEvent::LocalsUpdated { vars } => StateEventView::LocalsUpdated {
                vars: vars.deep_view(),
            },
            StateEvent::RegisterNamesReceived { names } => StateEventView::RegisterNamesReceived {
                names: names.deep_view(),
            },
            StateEvent::RegistersUpdated { registers } => StateEventView::RegistersUpdated {
                registers: registers.deep_view(),
            },
            StateEvent::DisasmUpdated { lines } => StateEventView::DisasmUpdated {
                lines: lines.deep_view(),
            },
        }
    }
}

impl DeepView for UiEvent {
    type V = UiEventView;

    open spec fn deep_view(&self) -> UiEventView {
        match self {
            UiEvent::ConsoleOutput(s) => UiEventView::ConsoleOutput(s@),
            UiEvent::GdbError(s) => UiEventView::GdbError(s@),
        }
    }
}

impl DeepView for DebuggerEvent {
    type V = EventView;

    open spec fn deep_view(&self) -> EventView {
        match self {
            DebuggerEvent::State(e) => EventView::State(e.deep_view()),
            DebuggerEvent::Ui(e) => EventView::Ui(e.deep_view()),
        }
    }
}

impl View for DebuggerState {
    type V = DebuggerStateView;

    open spec fn view(&self) -> DebuggerStateView {
        DebuggerStateView {
            program: self.program,
            pause: self.pause.deep_view(),
            locals: self.locals.deep_view(),
            registers: self.registers.deep_view(),
            register_names: self.register_names.deep_view(),
            disasm: self.disasm.deep_view(),
            executable: self.persistent.executable.deep_view(),
            breakpoints: self.persistent.breakpoints.deep_view(),
        }
    }
}

// ───────────────────────────── reducer spec ─────────────────────────────

/// The state before anything is loaded.
pub open spec fn initial_state() -> DebuggerStateView {
    DebuggerStateView {
        program: ProgramState::NoProgramLoaded,
        pause: None,
        locals: seq![],
        registers: seq![],
        register_names: seq![],
        disasm: seq![],
        executable: None,
        breakpoints: seq![],
    }
}

/// Some breakpoint in `bps` has the key `id`.
pub open spec fn has_id(bps: Seq<BreakpointView>, id: u32) -> bool {
    exists|i: int| 0 <= i < bps.len() && (#[trigger] bps[i]).id == id
}

/// `bps` with the entry keyed like `bp` replaced, or with `bp` appended.
pub open spec fn with_breakpoint(bps: Seq<BreakpointView>, bp: BreakpointView) -> Seq<
    BreakpointView,
> {
    if has_id(bps, bp.id) {
        bps.map_values(|b: BreakpointView| if b.id == bp.id { bp } else { b })
    } else {
        bps.push(bp)
    }
}

/// `bps` without the entry keyed `id`.
pub open spec fn without_breakpoint(bps: Seq<BreakpointView>, id: u32) -> Seq<BreakpointView> {
    bps.filter(|b: BreakpointView| b.id != id)
}

/// `bps` with the entry keyed `id` enabled or disabled.
pub open spec fn with_enabled(bps: Seq<BreakpointView>, id: u32, enabled: bool) -> Seq<
    BreakpointView,
> {
    bps.map_values(
        |b: BreakpointView|
            if b.id == id {
                BreakpointView { enabled: enabled, ..b }
            } else {
                b
            },
    )
}

/// The effect of one event on the state. The phase machine is strict: once
/// the program has exited, only a new load leaves `Exited`; starts, pauses
/// and exits arriving there change nothing.
pub open spec fn step(s: DebuggerStateView, e: StateEventView) -> DebuggerStateView {
    match e {
        StateEventView::ProgramLoaded { executable } => DebuggerStateView {
            program: ProgramState::ProgramLoaded,
            executable: Some(executable),
            pause: None,
            locals: seq![],
            ..s
        },
        StateEventView::ProgramStarted => if s.program is Exited {
            s
        } else {
            DebuggerStateView { program: ProgramState::Running, pause: None, locals: seq![], ..s }
        },
        StateEventView::ProgramPaused { pause } => if s.program is Exited {
            s
        } else {
            DebuggerStateView { program: ProgramState::Paused, pause: Some(pause), ..s }
        },
        StateEventView::ProgramExited { code } => if s.program is Exited {
            s
        } else {
            DebuggerStateView {
                program: ProgramState::Exited { code },
                pause: None,
                locals: seq![],
                ..s
            }
        },
        StateEventView::BreakpointAdded { breakpoint } => DebuggerStateView {
            breakpoints: with_breakpoint(s.breakpoints, breakpoint),
            ..s
        },
        StateEventView::BreakpointRemoved { id } => DebuggerStateView {
            breakpoints: without_breakpoint(s.breakpoints, id),
            ..s
        },
        StateEventView::BreakpointToggled { id, enabled } => DebuggerStateView {
            breakpoints: with_enabled(s.breakpoints, id, enabled),
            ..s
        },
        StateEventView::LocalsUpdated { vars } => DebuggerStateView { locals: vars, ..s },
        StateEventView::RegisterNamesReceived { names } => DebuggerStateView {
            register_names: names,
            ..s
        },
        StateEventView::RegistersUpdated { registers } => DebuggerStateView {
            registers: registers,
            ..s
        },
        StateEventView::DisasmUpdated { lines } => DebuggerStateView { disasm: lines, ..s },
    }
}

/// First breakpoint at or after `i` set at `file`:`line`.
pub open spec fn breakpoint_index_from(
    bps: Seq<BreakpointView>,
    file: Seq<char>,
    line: u32,
    i: int,
) -> Option<int>
    decreases bps.len() - i,
{
    if i < 0 || i >= bps.len() {
        None
    } else if bps[i].file == file && bps[i].line == line {
        Some(i)
    } else {
        breakpoint_index_from(bps, file, line, i + 1)
    }
}

// ───────────────────────────── laws ─────────────────────────────

/// No two breakpoints share an id.
pub open spec fn unique_ids(bps: Seq<BreakpointView>) -> bool {
    forall|i: int, j: int|
        0 <= i < bps.len() && 0 <= j < bps.len() && i != j ==> (#[trigger] bps[i]).id != (
        #[trigger] bps[j]).id
}

/// The state's invariant: a pause exists exactly while paused, and
/// breakpoint ids are keys.
pub open spec fn well_formed(s: DebuggerStateView) -> bool {
    &&& (s.pause is Some <==> s.program == ProgramState::Paused)
    &&& unique_ids(s.breakpoints)
}

/// The state after a sequence of events.
pub open spec fn run(s: DebuggerStateView, events: Seq<StateEventView>) -> DebuggerStateView
    decreases events.len(),
{
    if events.len() == 0 {
        s
    } else {
        step(run(s, events.drop_last()), events.last())
    }
}

proof fn lemma_filter_unique(bps: Seq<BreakpointView>, pred: spec_fn(BreakpointView) -> bool)
    requires
        unique_ids(bps),
    ensures
        unique_ids(bps.filter(pred)),
    decreases bps.len(),
{
    reveal(Seq::filter);
    if bps.len() > 0 {
        let init = bps.drop_last();
        let last = bps.last();
        assert(unique_ids(init)) by {
            assert forall|i: int, j: int|
                0 <= i < init.len() && 0 <= j < init.len() && i != j implies (#[trigger] init[i]).id
                != (#[trigger] init[j]).id by {
                assert(init[i] == bps[i] && init[j] == bps[j]);
            }
        }
        lemma_filter_unique(init, pred);
        let f = init.filter(pred);
        if pred(last) {
            assert forall|k: int| 0 <= k < f.len() implies (#[trigger] f[k]).id != last.id by {
                assert(f.contains(f[k]));
                init.lemma_filter_contains_rev(pred, f[k]);
                let j = choose|j: int| 0 <= j < init.len() && init[j] == f[k];
                assert(bps[j] == init[j]);
                assert(bps[bps.len() - 1] == last);
            }
            let g = f.push(last);
            assert(bps.filter(pred) == g);
            assert forall|i: int, j: int|
                0 <= i < g.len() && 0 <= j < g.len() && i != j implies (#[trigger] g[i]).id != (
                #[trigger] g[j]).id by {
                if i < f.len() && j < f.len() {
                    assert(g[i] == f[i] && g[j] == f[j]);
                } else if i < f.len() {
                    assert(g[i] == f[i]);
                } else {
                    assert(g[j] == f[j]);
                }
            }
        }
    }
}

/// One event keeps the state's invariant.
pub proof fn lemma_step_well_formed(s: DebuggerStateView, e: StateEventView)
    requires
        well_formed(s),
    ensures
        well_formed(step(s, e)),
{
    let bps = s.breakpoints;
    match e {
        StateEventView::BreakpointAdded { breakpoint } => {
            let r = with_breakpoint(bps, breakpoint);
            if has_id(bps, breakpoint.id) {
                assert forall|i: int| 0 <= i < r.len() implies (#[trigger] r[i]).id == bps[i].id by {
                }
            } else {
                assert forall|i: int, j: int|
                    0 <= i < r.len() && 0 <= j < r.len() && i != j implies (#[trigger] r[i]).id
                    != (#[trigger] r[j]).id by {
                    if i < bps.len() && j < bps.len() {
                    } else if i < bps.len() {
                        assert(bps[i] == r[i]);
                    } else {
                        assert(bps[j] == r[j]);
                    }
                }
            }
        },
        StateEventView::BreakpointRemoved { id } => {
            lemma_filter_unique(bps, |b: BreakpointView| b.id != id);
        },
        StateEventView::BreakpointToggled { id, enabled } => {
            let r = with_enabled(bps, id, enabled);
            assert forall|i: int| 0 <= i < r.len() implies (#[trigger] r[i]).id == bps[i].id by {}
        },
        _ => {},
    }
}

/// From the initial state, every sequence of events keeps the invariant:
/// `pause` is present exactly while paused, and breakpoint ids stay unique.
pub proof fn lemma_run_well_formed(events: Seq<StateEventView>)
    ensures
        well_formed(run(initial_state(), events)),
    decreases events.len(),
{
    if events.len() > 0 {
        lemma_run_well_formed(events.drop_last());
        lemma_step_well_formed(run(initial_state(), events.drop_last()), events.last());
    }
}

/// Once exited, the program stays exited, with no pause and its locals
/// unchanged, until a new load.
pub proof fn lemma_exited_until_loaded(s: DebuggerStateView, e: StateEventView)
    requires
        s.program is Exited,
        !(e is ProgramLoaded),
    ensures
        step(s, e).program == s.program,
        step(s, e).pause == s.pause,
        (e is ProgramStarted || e is ProgramPaused || e is ProgramExited) ==> step(s, e).locals
            == s.locals,
{
}

/// Removing an id that no breakpoint has changes nothing.
pub proof fn lemma_remove_absent(s: DebuggerStateView, id: u32)
    requires
        !has_id(s.breakpoints, id),
    ensures
        step(s, StateEventView::BreakpointRemoved { id }) == s,
{
    lemma_filter_all_kept(s.breakpoints, id);
    assert(step(s, StateEventView::BreakpointRemoved { id }) =~= s);
}

proof fn lemma_filter_all_kept(bps: Seq<BreakpointView>, id: u32)
    requires
        !has_id(bps, id),
    ensures
        without_breakpoint(bps, id) == bps,
    decreases bps.len(),
{
    reveal(Seq::filter);
    if bps.len() > 0 {
        let init = bps.drop_last();
        assert(!has_id(init, id)) by {
            if has_id(init, id) {
                let j = choose|j: int| 0 <= j < init.len() && (#[trigger] init[j]).id == id;
                assert(bps[j] == init[j]);
            }
        }
        lemma_filter_all_kept(init, id);
        assert(bps[bps.len() - 1].id != id);
        assert(init.push(bps.last()) =~= bps);
    }
}

/// Removing a present id takes out exactly the entry at its index.
pub proof fn lemma_remove_present(s: DebuggerStateView, id: u32, k: int)
    requires
        unique_ids(s.breakpoints),
        0 <= k < s.breakpoints.len(),
        s.breakpoints[k].id == id,
    ensures
        step(s, StateEventView::BreakpointRemoved { id }).breakpoints == s.breakpoints.remove(k),
        step(s, StateEventView::BreakpointRemoved { id }).program == s.program,
    decreases s.breakpoints.len(),
{
    lemma_filter_remove(s.breakpoints, id, k);
}

proof fn lemma_filter_remove(bps: Seq<BreakpointView>, id: u32, k: int)
    requires
        unique_ids(bps),
        0 <= k < bps.len(),
        bps[k].id == id,
    ensures
        without_breakpoint(bps, id) == bps.remove(k),
    decreases bps.len(),
{
    reveal(Seq::filter);
    let init = bps.drop_last();
    assert(unique_ids(init)) by {
        assert forall|i: int, j: int|
            0 <= i < init.len() && 0 <= j < init.len() && i != j implies (#[trigger] init[i]).id
            != (#[trigger] init[j]).id by {
            assert(init[i] == bps[i] && init[j] == bps[j]);
        }
    }
    if k == bps.len() - 1 {
        assert(!has_id(init, id)) by {
            if has_id(init, id) {
                let j = choose|j: int| 0 <= j < init.len() && (#[trigger] init[j]).id == id;
                assert(bps[j] == init[j]);
            }
        }
        lemma_filter_all_kept(init, id);
        assert(bps.remove(k) =~= init);
    } else {
        lemma_filter_remove(init, id, k);
        assert(bps[bps.len() - 1].id != id);
        assert(init.remove(k).push(bps.last()) =~= bps.remove(k));
    }
}

// ───────────────────────────── reducer ─────────────────────────────

fn copy_breakpoint(b: &Breakpoint) -> (r: Breakpoint)
    ensures
        r.deep_view() == b.deep_view(),
{
    Breakpoint { id: b.id, file: b.file.clone(), line: b.line, enabled: b.enabled }
}

impl DebuggerState {
    /// A state with nothing loaded and no breakpoints.
    pub fn new() -> (r: Self)
        ensures
            r@ == initial_state(),
    {
        let r = DebuggerState {
            program: ProgramState::NoProgramLoaded,
            pause: None,
            locals: Vec::new(),
            registers: Vec::new(),
            register_names: Vec::new(),
            disasm: Vec::new(),
            persistent: PersistentState { executable: None, breakpoints: Vec::new() },
        };
        proof {
            assert(r@.locals =~= seq![]);
            assert(r@.registers =~= seq![]);
            assert(r@.register_names =~= seq![]);
            assert(r@.disasm =~= seq![]);
            assert(r@.breakpoints =~= seq![]);
        }
        r
    }

    fn add_breakpoint(&mut self, bp: Breakpoint)
        ensures
            final(self)@ == (DebuggerStateView {
                breakpoints: with_breakpoint(old(self)@.breakpoints, bp.deep_view()),
                ..old(self)@
            }),
    {
        let ghost bps0 = self@.breakpoints;
        let n = self.persistent.breakpoints.len();
        let mut found = false;
        let mut i: usize = 0;
        while i < n
            invariant
                n == bps0.len(),
                i <= n,
                self.persistent.breakpoints@.len() == n,
                found == (exists|j: int| 0 <= j < i && (#[trigger] bps0[j]).id == bp.id),
                forall|j: int|
                    0 <= j < n ==> (#[trigger] self.persistent.breakpoints@[j]).deep_view() == (
                    if j < i && bps0[j].id == bp.id {
                        bp.deep_view()
                    } else {
                        bps0[j]
                    }),
                self@ == (DebuggerStateView { breakpoints: self@.breakpoints, ..old(self)@ }),
                bps0 == old(self)@.breakpoints,
            decreases n - i,
        {
            if self.persistent.breakpoints[i].id == bp.id {
                self.persistent.breakpoints.set(i, copy_breakpoint(&bp));
                found = true;
            }
            i += 1;
        }
        if found {
            proof {
                assert(has_id(bps0, bp.id));
                assert(self@.breakpoints =~= with_breakpoint(bps0, bp.deep_view()));
            }
        } else {
            self.persistent.breakpoints.push(bp);
            proof {
                assert(!has_id(bps0, bp.id));
                assert(self@.breakpoints =~= with_breakpoint(bps0, bp.deep_view()));
            }
        }
    }

    fn remove_breakpoint(&mut self, id: u32)
        ensures
            final(self)@ == (DebuggerStateView {
                breakpoints: without_breakpoint(old(self)@.breakpoints, id),
                ..old(self)@
            }),
    {
        let ghost bps0 = self@.breakpoints;
        let ghost pred = |b: BreakpointView| b.id != id;
        let n = self.persistent.breakpoints.len();
        let mut kept: Vec<Breakpoint> = Vec::new();
        let mut i: usize = 0;
        while i < n
            invariant
                n == bps0.len(),
                i <= n,
                bps0 == self.persistent.breakpoints.deep_view(),
                pred == (|b: BreakpointView| b.id != id),
                kept.deep_view() == bps0.take(i as int).filter(pred),
            decreases n - i,
        {
            let ghost before = kept.deep_view();
            if self.persistent.breakpoints[i].id != id {
                kept.push(copy_breakpoint(&self.persistent.breakpoints[i]));
                proof {
                    assert(kept.deep_view() =~= before.push(bps0[i as int]));
                }
            }
            proof {
                assert(bps0.take(i + 1) =~= bps0.take(i as int).push(bps0[i as int]));
                bps0.take(i as int).lemma_filter_push(bps0[i as int], pred);
            }
            i += 1;
        }
        proof {
            assert(bps0.take(n as int) =~= bps0);
        }
        self.persistent.breakpoints = kept;
    }

    fn toggle_breakpoint(&mut self, id: u32, enabled: bool)
        ensures
            final(self)@ == (DebuggerStateView {
                breakpoints: with_enabled(old(self)@.breakpoints, id, enabled),
                ..old(self)@
            }),
    {
        let ghost bps0 = self@.breakpoints;
        let n = self.persistent.breakpoints.len();
        let mut i: usize = 0;
        while i < n
            invariant
                n == bps0.len(),
                i <= n,
                self.persistent.breakpoints@.len() == n,
                forall|j: int|
                    0 <= j < n ==> (#[trigger] self.persistent.breakpoints@[j]).deep_view() == (
                    if j < i && bps0[j].id == id {
                        BreakpointView { enabled: enabled, ..bps0[j] }
                    } else {
                        bps0[j]
                    }),
                self@ == (DebuggerStateView { breakpoints: self@.breakpoints, ..old(self)@ }),
                bps0 == old(self)@.breakpoints,
            decreases n - i,
        {
            if self.persistent.breakpoints[i].id == id {
                let b = &self.persistent.breakpoints[i];
                let nb = Breakpoint { id: b.id, file: b.file.clone(), line: b.line, enabled };
                self.persistent.breakpoints.set(i, nb);
            }
            i += 1;
        }
        proof {
            assert(self@.breakpoints =~= with_enabled(bps0, id, enabled));
        }
    }

    /// The single place where the state changes.
    pub fn apply(&mut self, event: StateEvent)
        ensures
            final(self)@ == step(old(self)@, event.deep_view()),
    {
        match event {
            StateEvent::ProgramLoaded { executable } => {
                self.program = ProgramState::ProgramLoaded;
                self.persistent.executable = Some(executable);
                self.pause = None;
                self.locals = Vec::new();
                proof {
                    assert(self@.locals =~= seq![]);
                }
            },
            StateEvent::ProgramStarted => {
                if !self.has_exited() {
                    self.program = ProgramState::Running;
                    self.pause = None;
                    self.locals = Vec::new();
                    proof {
                        assert(self@.locals =~= seq![]);
                    }
                }
            },
            StateEvent::ProgramPaused { pause } => {
                if !self.has_exited() {
                    self.program = ProgramState::Paused;
                    self.pause = Some(pause);
                }
            },
            StateEvent::ProgramExited { code } => {
                if !self.has_exited() {
                    self.program = ProgramState::Exited { code };
                    self.pause = None;
                    self.locals = Vec::new();
                    proof {
                        assert(self@.locals =~= seq![]);
                    }
                }
            },
            StateEvent::BreakpointAdded { breakpoint } => {
                self.add_breakpoint(breakpoint);
            },
            StateEvent::BreakpointRemoved { id } => {
                self.remove_breakpoint(id);
            },
            StateEvent::BreakpointToggled { id, enabled } => {
                self.toggle_breakpoint(id, enabled);
            },
            StateEvent::LocalsUpdated { vars } => {
                self.locals = vars;
            },
            StateEvent::RegisterNamesReceived { names } => {
                self.register_names = names;
            },
            StateEvent::RegistersUpdated { registers } => {
                self.registers = registers;
            },
            StateEvent::DisasmUpdated { lines } => {
                self.disasm = lines;
            },
        }
    }

    /// Whether the program has exited.
    pub fn has_exited(&self) -> (r: bool)
        ensures
            r == (self.program is Exited),
    {
        match self.program {
            ProgramState::Exited { .. } => true,
            _ => false,
        }
    }

    pub fn is_paused(&self) -> (r: bool)
        ensures
            r == (self.program == ProgramState::Paused),
    {
        match self.program {
            ProgramState::Paused => true,
            _ => false,
        }
    }

    pub fn is_running(&self) -> (r: bool)
        ensures
            r == (self.program == ProgramState::Running),
    {
        match self.program {
            ProgramState::Running => true,
            _ => false,
        }
    }

    /// Source file of the frame the target stopped in.
    pub fn current_file(&self) -> (r: Option<&str>)
        ensures
            r.deep_view() == match self@.pause {
                Some(p) => p.frame.file,
                None => None,
            },
    {
        match &self.pause {
            Some(p) => match &p.frame.file {
                Some(f) => Some(f.as_str()),
                None => None,
            },
            None => None,
        }
    }

    /// Source line of the frame the target stopped in.
    pub fn current_line(&self) -> (r: Option<u32>)
        ensures
            r == match self@.pause {
                Some(p) => p.frame.line,
                None => None,
            },
    {
        match &self.pause {
            Some(p) => p.frame.line,
            None => None,
        }
    }

    /// Function of the frame the target stopped in.
    pub fn current_function(&self) -> (r: Option<&str>)
        ensures
            r.deep_view() == match self@.pause {
                Some(p) => Some(p.frame.function),
                None => None,
            },
    {
        match &self.pause {
            Some(p) => Some(p.frame.function.as_str()),
            None => None,
        }
    }

    /// The first breakpoint set at `file`:`line`.
    pub fn breakpoint_at(&self, file: &str, line: u32) -> (r: Option<&Breakpoint>)
        ensures
            r.deep_view() == match breakpoint_index_from(self@.breakpoints, file@, line, 0) {
                Some(i) => Some(self@.breakpoints[i]),
                None => None,
            },
    {
        let want = chars_of(file);
        let bps = &self.persistent.breakpoints;
        let n = bps.len();
        let mut i: usize = 0;
        while i < n
            invariant
                n == bps@.len(),
                i <= n,
                want@ == file@,
                bps.deep_view() == self@.breakpoints,
                breakpoint_index_from(self@.breakpoints, file@, line, i as int)
                    == breakpoint_index_from(self@.breakpoints, file@, line, 0),
            decreases n - i,
        {
            let b = &bps[i];
            let here = chars_of(b.file.as_str());
            if b.line == line && same_chars(here.as_slice(), want.as_slice()) {
                return Some(b);
            }
            i += 1;
        }
        None
    }
}

impl Default for DebuggerState {
    fn default() -> (r: Self)
        ensures
            r@ == initial_state(),
    {
        Self::new()
    }
}

} // verus!
