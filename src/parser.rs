//! Decoding of MI output lines into debugger events.
//!
//! The spec functions below say what each line means; the executable
//! functions after them are proved to compute exactly that.
use vstd::prelude::*;
use vstd::string::StrSliceExecFns;

use crate::state::{
    AsmLine, AsmLineView, Breakpoint, BreakpointView, DebuggerEvent, EventView, Frame, FrameView,
    PauseState, PauseView, Register, RegisterView, StateEvent, StateEventView, StopReason,
    StopReasonView, UiEvent, UiEventView, Variable, VariableView,
};
use crate::text::{
    chars_of, close_from, closing, closing_quote, find, find_char, find_closing_brace,
    find_closing_bracket, find_closing_quote, find_from, find_seq, lead_space, lemma_scan_bounds,
    occurs_at, parse_addr, parse_address, parse_decimal, parse_u32, push_all, quote_end_from,
    same_chars, string_of, trail_space, trimmed, unescape, unescaped, unquote, unquoted,
};

verus! {

// ───────────────────────────── fields ─────────────────────────────

/// `r` holds the characters `m` says, or nothing where `m` is `None`.
pub open spec fn opt_chars(r: Option<Vec<char>>) -> Option<Seq<char>> {
    match r {
        Some(v) => Some(v@),
        None => None,
    }
}

/// The text `key="`.
pub open spec fn str_needle(key: Seq<char>) -> Seq<char> {
    key + seq!['=', '"']
}

/// The text `key={`.
pub open spec fn block_needle(key: Seq<char>) -> Seq<char> {
    key + seq!['=', '{']
}

/// The text `key=[`.
pub open spec fn list_needle(key: Seq<char>) -> Seq<char> {
    key + seq!['=', '[']
}

/// Whether `p` occurs in `s`.
pub open spec fn contains(s: Seq<char>, p: Seq<char>) -> bool {
    find(s, p) is Some
}

/// The value of the first scalar field `key="..."`, unescaped.
pub open spec fn field_text(fields: Seq<char>, key: Seq<char>) -> Option<Seq<char>> {
    match find(fields, str_needle(key)) {
        None => None,
        Some(p) => {
            let rest = fields.subrange(p + str_needle(key).len(), fields.len() as int);
            match closing_quote(rest) {
                None => None,
                Some(e) => Some(unescaped(rest.subrange(0, e))),
            }
        },
    }
}

/// The interior of the first block field `key={...}`.
pub open spec fn field_block(fields: Seq<char>, key: Seq<char>) -> Option<Seq<char>> {
    match find(fields, block_needle(key)) {
        None => None,
        Some(p) => {
            let rest = fields.subrange(p + block_needle(key).len(), fields.len() as int);
            match closing(rest, '{', '}') {
                None => None,
                Some(e) => Some(rest.subrange(0, e)),
            }
        },
    }
}

/// The interior of the list field `key=[...]`, or else of `key={...}`.
pub open spec fn field_list(fields: Seq<char>, key: Seq<char>) -> Option<Seq<char>> {
    let bracketed = match find(fields, list_needle(key)) {
        None => None,
        Some(p) => {
            let rest = fields.subrange(p + list_needle(key).len(), fields.len() as int);
            match closing(rest, '[', ']') {
                None => None,
                Some(e) => Some(rest.subrange(0, e)),
            }
        },
    };
    match bracketed {
        Some(l) => Some(l),
        None => field_block(fields, key),
    }
}

/// A numeric field read as a `u32`, or `d` where it is absent or does not read.
pub open spec fn field_u32_or(fields: Seq<char>, key: Seq<char>, d: u32) -> u32 {
    match field_text(fields, key) {
        Some(s) => match parse_u32(s) {
            Some(v) => v,
            None => d,
        },
        None => d,
    }
}

/// A text field, or the empty text where it is absent.
pub open spec fn field_or_empty(fields: Seq<char>, key: Seq<char>) -> Seq<char> {
    match field_text(fields, key) {
        Some(s) => s,
        None => seq![],
    }
}

/// The source file of a frame or breakpoint: `fullname`, else `file`.
pub open spec fn source_file(block: Seq<char>) -> Option<Seq<char>> {
    match field_text(block, "fullname"@) {
        Some(s) => Some(s),
        None => field_text(block, "file"@),
    }
}

// ───────────────────────────── records ─────────────────────────────

/// The frame that a `frame={...}` interior describes.
pub open spec fn frame_of(block: Seq<char>) -> FrameView {
    FrameView {
        addr: match field_text(block, "addr"@) {
            Some(s) => parse_addr(s),
            None => 0,
        },
        function: match field_text(block, "func"@) {
            Some(s) => s,
            None => "??"@,
        },
        file: source_file(block),
        line: match field_text(block, "line"@) {
            Some(s) => parse_u32(s),
            None => None,
        },
    }
}

/// The breakpoint in the block field `key`; none without a block. Missing
/// fields take defaults: id and line zero, file empty, enabled.
pub open spec fn breakpoint_of(fields: Seq<char>, key: Seq<char>) -> Option<BreakpointView> {
    match field_block(fields, key) {
        None => None,
        Some(block) => Some(
            BreakpointView {
                id: field_u32_or(block, "number"@, 0),
                file: match source_file(block) {
                    Some(file) => file,
                    None => seq![],
                },
                line: field_u32_or(block, "line"@, 0),
                enabled: match field_text(block, "enabled"@) {
                    Some(s) => s == "y"@,
                    None => true,
                },
            },
        ),
    }
}

/// A local variable record; none where the name is absent or empty.
pub open spec fn variable_of(block: Seq<char>) -> Option<VariableView> {
    match field_text(block, "name"@) {
        None => None,
        Some(name) => if name.len() == 0 {
            None
        } else {
            Some(
                VariableView {
                    name: name,
                    value: field_or_empty(block, "value"@),
                    type_: field_or_empty(block, "type"@),
                },
            )
        },
    }
}

/// A register value record; the name is left for the name table.
pub open spec fn register_of(block: Seq<char>) -> RegisterView {
    RegisterView {
        number: field_u32_or(block, "number"@, 0),
        name: seq![],
        value: field_or_empty(block, "value"@),
    }
}

/// A disassembled-instruction record.
pub open spec fn asm_line_of(block: Seq<char>) -> AsmLineView {
    AsmLineView {
        addr: match field_text(block, "address"@) {
            Some(s) => parse_addr(s),
            None => 0,
        },
        offset: field_u32_or(block, "offset"@, 0),
        inst: field_or_empty(block, "inst"@),
        current: false,
    }
}

/// Span of the interior of the next `{...}` block in `rest`.
pub open spec fn next_block(rest: Seq<char>) -> Option<(int, int)> {
    match find(rest, seq!['{']) {
        None => None,
        Some(st) => match closing(rest.subrange(st + 1, rest.len() as int), '{', '}') {
            None => None,
            Some(e) => Some((st + 1, st + 1 + e)),
        },
    }
}

/// The next block lies strictly inside `rest`, after its opening brace.
pub proof fn lemma_next_block(rest: Seq<char>)
    ensures
        match next_block(rest) {
            Some((a, b)) => 0 < a <= b < rest.len(),
            None => true,
        },
{
    lemma_scan_bounds(rest);
    if let Some(st) = find(rest, seq!['{']) {
        lemma_scan_bounds(rest.subrange(st + 1, rest.len() as int));
    }
}

/// The variables of consecutive blocks, nameless ones dropped.
pub open spec fn variables_in(rest: Seq<char>) -> Seq<VariableView>
    decreases rest.len(),
    via variables_in_decreases
{
    match next_block(rest) {
        None => seq![],
        Some((a, b)) => {
            let tail = variables_in(rest.subrange(b + 1, rest.len() as int));
            match variable_of(rest.subrange(a, b)) {
                Some(v) => seq![v] + tail,
                None => tail,
            }
        },
    }
}

#[via_fn]
proof fn variables_in_decreases(rest: Seq<char>) {
    lemma_next_block(rest);
}

/// The registers of consecutive blocks.
pub open spec fn registers_in(rest: Seq<char>) -> Seq<RegisterView>
    decreases rest.len(),
    via registers_in_decreases
{
    match next_block(rest) {
        None => seq![],
        Some((a, b)) => seq![register_of(rest.subrange(a, b))] + registers_in(
            rest.subrange(b + 1, rest.len() as int),
        ),
    }
}

#[via_fn]
proof fn registers_in_decreases(rest: Seq<char>) {
    lemma_next_block(rest);
}

/// The instructions of consecutive blocks.
pub open spec fn asm_lines_in(rest: Seq<char>) -> Seq<AsmLineView>
    decreases rest.len(),
    via asm_lines_in_decreases
{
    match next_block(rest) {
        None => seq![],
        Some((a, b)) => seq![asm_line_of(rest.subrange(a, b))] + asm_lines_in(
            rest.subrange(b + 1, rest.len() as int),
        ),
    }
}

#[via_fn]
proof fn asm_lines_in_decreases(rest: Seq<char>) {
    lemma_next_block(rest);
}

/// The raw texts of consecutive quoted strings.
pub open spec fn names_in(rest: Seq<char>) -> Seq<Seq<char>>
    decreases rest.len(),
    via names_in_decreases
{
    match find(rest, seq!['"']) {
        None => seq![],
        Some(q) => {
            let r2 = rest.subrange(q + 1, rest.len() as int);
            match closing_quote(r2) {
                None => seq![],
                Some(e) => seq![r2.subrange(0, e)] + names_in(
                    r2.subrange(e + 1, r2.len() as int),
                ),
            }
        },
    }
}

#[via_fn]
proof fn names_in_decreases(rest: Seq<char>) {
    lemma_scan_bounds(rest);
    if let Some(q) = find(rest, seq!['"']) {
        lemma_scan_bounds(rest.subrange(q + 1, rest.len() as int));
    }
}

/// The locals of a `variables` list.
pub open spec fn variables_of(fields: Seq<char>) -> Seq<VariableView> {
    match field_list(fields, "variables"@) {
        None => seq![],
        Some(list) => if contains(list, seq!['{']) {
            variables_in(list)
        } else {
            match variable_of(list) {
                Some(v) => seq![v],
                None => seq![],
            }
        },
    }
}

/// The names of a `register-names` list.
pub open spec fn register_names_of(fields: Seq<char>) -> Seq<Seq<char>> {
    match field_list(fields, "register-names"@) {
        None => seq![],
        Some(list) => names_in(list),
    }
}

/// The registers of a `register-values` list; a non-empty list without
/// braces is read as one record.
pub open spec fn registers_of(fields: Seq<char>) -> Seq<RegisterView> {
    match field_list(fields, "register-values"@) {
        None => seq![],
        Some(list) => if contains(list, seq!['{']) {
            registers_in(list)
        } else if list.len() > 0 {
            seq![register_of(list)]
        } else {
            seq![]
        },
    }
}

/// The instructions of an `asm_insns` list; a non-empty list without
/// braces is read as one record.
pub open spec fn asm_lines_of(fields: Seq<char>) -> Seq<AsmLineView> {
    match field_list(fields, "asm_insns"@) {
        None => seq![],
        Some(list) => if contains(list, seq!['{']) {
            asm_lines_in(list)
        } else if list.len() > 0 {
            seq![asm_line_of(list)]
        } else {
            seq![]
        },
    }
}

// ───────────────────────────── lines ─────────────────────────────

/// Number of leading ASCII digits.
pub open spec fn digit_run(s: Seq<char>) -> nat
    decreases s.len(),
{
    if s.len() > 0 && '0' <= s[0] && s[0] <= '9' {
        1 + digit_run(s.subrange(1, s.len() as int))
    } else {
        0
    }
}

/// Length of the correlation token: the leading digits, unless the line is
/// nothing but digits.
pub open spec fn token_len(s: Seq<char>) -> nat {
    if digit_run(s) == s.len() {
        0
    } else {
        digit_run(s)
    }
}

/// The line without its correlation token.
pub open spec fn without_token(s: Seq<char>) -> Seq<char> {
    s.subrange(token_len(s) as int, s.len() as int)
}

/// A record body split at its first comma into class and fields.
pub open spec fn class_and_fields(s: Seq<char>) -> (Seq<char>, Seq<char>) {
    match find(s, seq![',']) {
        Some(i) => (s.subrange(0, i), s.subrange(i + 1, s.len() as int)),
        None => (s, seq![]),
    }
}

/// Why a `*stopped` record stopped.
pub open spec fn stop_reason_of(fields: Seq<char>) -> StopReasonView {
    match field_text(fields, "reason"@) {
        Some(r) => if r == "breakpoint-hit"@ {
            StopReasonView::BreakpointHit(field_u32_or(fields, "bkptno"@, 0))
        } else if r == "end-stepping-range"@ || r == "step-over-range"@ {
            StopReasonView::EndStepping
        } else if r == "signal-received"@ {
            StopReasonView::Signal(field_or_empty(fields, "signal-name"@))
        } else {
            StopReasonView::Unknown
        },
        None => StopReasonView::Unknown,
    }
}

/// Meaning of an exec-async (`*`) record.
pub open spec fn exec_event(class: Seq<char>, fields: Seq<char>) -> Option<EventView> {
    if class == "running"@ {
        Some(EventView::State(StateEventView::ProgramStarted))
    } else if class == "stopped"@ {
        match field_block(fields, "frame"@) {
            None => None,
            Some(block) => Some(
                EventView::State(
                    StateEventView::ProgramPaused {
                        pause: PauseView {
                            thread_id: field_u32_or(fields, "thread-id"@, 1),
                            frame: frame_of(block),
                            stack: seq![frame_of(block)],
                            stop_reason: stop_reason_of(fields),
                        },
                    },
                ),
            ),
        }
    } else {
        None
    }
}

/// Meaning of a notify-async (`=`) record.
pub open spec fn notify_event(class: Seq<char>, fields: Seq<char>) -> Option<EventView> {
    if class == "breakpoint-created"@ || class == "breakpoint-modified"@ {
        match breakpoint_of(fields, "bkpt"@) {
            Some(bp) => Some(EventView::State(StateEventView::BreakpointAdded { breakpoint: bp })),
            None => None,
        }
    } else if class == "breakpoint-deleted"@ {
        match field_text(fields, "id"@) {
            Some(s) => match parse_u32(s) {
                Some(id) => Some(EventView::State(StateEventView::BreakpointRemoved { id })),
                None => None,
            },
            None => None,
        }
    } else {
        None
    }
}

/// Meaning of a `^done` record: the first payload present, in priority order.
pub open spec fn done_event(fields: Seq<char>) -> Option<EventView> {
    let bp = if contains(fields, "bkpt="@) {
        breakpoint_of(fields, "bkpt"@)
    } else {
        None
    };
    if bp is Some {
        Some(EventView::State(StateEventView::BreakpointAdded { breakpoint: bp->0 }))
    } else if contains(fields, "variables="@) && variables_of(fields).len() > 0 {
        Some(EventView::State(StateEventView::LocalsUpdated { vars: variables_of(fields) }))
    } else if contains(fields, "register-names="@) {
        Some(
            EventView::State(
                StateEventView::RegisterNamesReceived { names: register_names_of(fields) },
            ),
        )
    } else if contains(fields, "register-values="@) && registers_of(fields).len() > 0 {
        Some(
            EventView::State(StateEventView::RegistersUpdated { registers: registers_of(fields) }),
        )
    } else if contains(fields, "asm_insns="@) && asm_lines_of(fields).len() > 0 {
        Some(EventView::State(StateEventView::DisasmUpdated { lines: asm_lines_of(fields) }))
    } else {
        None
    }
}

/// Meaning of a result (`^`) record.
pub open spec fn result_event(class: Seq<char>, fields: Seq<char>) -> Option<EventView> {
    if class == "error"@ {
        Some(
            EventView::Ui(
                UiEventView::GdbError(
                    match field_text(fields, "msg"@) {
                        Some(m) => m,
                        None => "GDB error"@,
                    },
                ),
            ),
        )
    } else if class == "done"@ {
        done_event(fields)
    } else if class == "running"@ {
        Some(EventView::State(StateEventView::ProgramStarted))
    } else if class == "exit"@ {
        Some(EventView::State(StateEventView::ProgramExited { code: None }))
    } else {
        None
    }
}

/// Meaning of a record that starts with its sigil.
pub open spec fn record_event(l: Seq<char>) -> Option<EventView> {
    if l.len() == 0 {
        None
    } else {
        let body = l.subrange(1, l.len() as int);
        let (class, fields) = class_and_fields(body);
        if l[0] == '~' {
            Some(EventView::Ui(UiEventView::ConsoleOutput(unquoted(body))))
        } else if l[0] == '@' {
            Some(EventView::Ui(UiEventView::ConsoleOutput("[target] "@ + unquoted(body))))
        } else if l[0] == '*' {
            exec_event(class, fields)
        } else if l[0] == '=' {
            notify_event(class, fields)
        } else if l[0] == '^' {
            result_event(class, fields)
        } else {
            None
        }
    }
}

/// Meaning of one line of debugger output.
pub open spec fn line_event(line: Seq<char>) -> Option<EventView> {
    if line == "(gdb)"@ || line.len() == 0 {
        None
    } else {
        record_event(without_token(line))
    }
}

/// Model of a parse result.
pub open spec fn event_view(r: Option<DebuggerEvent>) -> Option<EventView> {
    match r {
        Some(e) => Some(e.deep_view()),
        None => None,
    }
}

// ───────────────────────────── laws ─────────────────────────────

/// Whether `c` is an ASCII digit.
pub open spec fn is_digit(c: char) -> bool {
    '0' <= c && c <= '9'
}

proof fn lemma_digit_run(s: Seq<char>)
    ensures
        digit_run(s) <= s.len(),
        forall|i: int| 0 <= i < digit_run(s) ==> is_digit(#[trigger] s[i]),
        digit_run(s) < s.len() ==> !is_digit(s[digit_run(s) as int]),
    decreases s.len(),
{
    if s.len() > 0 && is_digit(s[0]) {
        let t = s.subrange(1, s.len() as int);
        lemma_digit_run(t);
        assert forall|i: int| 0 <= i < digit_run(s) implies is_digit(#[trigger] s[i]) by {
            if i > 0 {
                assert(s[i] == t[i - 1]);
            }
        }
        if digit_run(s) < s.len() {
            assert(s[digit_run(s) as int] == t[digit_run(t) as int]);
        }
    }
}

proof fn lemma_digit_run_append(tok: Seq<char>, l: Seq<char>)
    requires
        forall|i: int| 0 <= i < tok.len() ==> is_digit(#[trigger] tok[i]),
        l.len() == 0 || !is_digit(l[0]),
    ensures
        digit_run(tok + l) == tok.len(),
    decreases tok.len(),
{
    if tok.len() == 0 {
        assert(tok + l =~= l);
    } else {
        let rest = tok.subrange(1, tok.len() as int);
        assert((tok + l).subrange(1, (tok + l).len() as int) =~= rest + l);
        lemma_digit_run_append(rest, l);
    }
}

/// Stripping the correlation token twice strips no more than once.
pub proof fn lemma_strip_token_idempotent(line: Seq<char>)
    ensures
        without_token(without_token(line)) == without_token(line),
{
    lemma_digit_run(line);
    let t = without_token(line);
    if digit_run(line) == line.len() {
        assert(line.subrange(0, line.len() as int) =~= line);
    } else {
        assert(t[0] == line[digit_run(line) as int]);
        assert(t.subrange(0, t.len() as int) =~= t);
    }
}

/// A line with a digit token decodes as the same line without it.
pub proof fn lemma_token_transparent(tok: Seq<char>, line: Seq<char>)
    requires
        tok.len() > 0,
        forall|i: int| 0 <= i < tok.len() ==> is_digit(#[trigger] tok[i]),
        line.len() == 0 || !is_digit(line[0]),
    ensures
        line_event(tok + line) == line_event(line),
        without_token(tok + line) == (if line.len() == 0 {
            tok
        } else {
            line
        }),
{
    reveal_strlit("(gdb)");
    lemma_digit_run_append(tok, line);
    let full = tok + line;
    assert(full[0] == tok[0]);
    assert(full != "(gdb)"@);
    if line.len() == 0 {
        assert(full =~= tok);
        assert(full.subrange(0, full.len() as int) =~= tok);
    } else {
        assert(full.subrange(tok.len() as int, full.len() as int) =~= line);
        lemma_digit_run(line);
        assert(digit_run(line) == 0);
        assert(line.subrange(0, line.len() as int) =~= line);
        if line == "(gdb)"@ {
            assert(line[0] == '(');
        }
    }
}

/// `v` written as the body of a quoted MI value.
pub open spec fn escaped(v: Seq<char>) -> Seq<char>
    decreases v.len(),
{
    if v.len() == 0 {
        seq![]
    } else {
        let c = v[0];
        let head = if c == '"' {
            seq!['\\', '"']
        } else if c == '\\' {
            seq!['\\', '\\']
        } else if c == '\n' {
            seq!['\\', 'n']
        } else if c == '\t' {
            seq!['\\', 't']
        } else {
            seq![c]
        };
        head + escaped(v.subrange(1, v.len() as int))
    }
}

/// Unescaping undoes escaping.
pub proof fn lemma_unescape_escaped(v: Seq<char>)
    ensures
        unescaped(escaped(v)) == v,
    decreases v.len(),
{
    if v.len() > 0 {
        let c = v[0];
        let tail = v.subrange(1, v.len() as int);
        let e = escaped(v);
        lemma_unescape_escaped(tail);
        if c == '"' || c == '\\' || c == '\n' || c == '\t' {
            assert(e.subrange(2, e.len() as int) =~= escaped(tail));
            assert(e[0] == '\\');
        } else {
            assert(e.subrange(1, e.len() as int) =~= escaped(tail));
        }
        assert(v =~= seq![c] + tail);
    }
}

/// Inside escaped text, the quote scanner meets no closing quote.
proof fn lemma_quote_skips(s: Seq<char>, i: int, v: Seq<char>)
    requires
        0 <= i,
        i + escaped(v).len() <= s.len(),
        s.subrange(i, i + escaped(v).len()) == escaped(v),
    ensures
        quote_end_from(s, i, false) == quote_end_from(s, i + escaped(v).len(), false),
    decreases v.len(),
{
    if v.len() > 0 {
        let c = v[0];
        let tail = v.subrange(1, v.len() as int);
        let e = escaped(v);
        assert(s.subrange(i, i + e.len())[0] == s[i]);
        assert(s[i] == e[0]);
        if c == '"' || c == '\\' || c == '\n' || c == '\t' {
            assert(e.subrange(2, e.len() as int) =~= escaped(tail));
            assert(s.subrange(i + 2, i + 2 + escaped(tail).len()) =~= escaped(tail));
            assert(quote_end_from(s, i, false) == quote_end_from(s, i + 1, true));
            assert(quote_end_from(s, i + 1, true) == quote_end_from(s, i + 2, false));
            lemma_quote_skips(s, i + 2, tail);
        } else {
            assert(e.subrange(1, e.len() as int) =~= escaped(tail));
            assert(s.subrange(i + 1, i + 1 + escaped(tail).len()) =~= escaped(tail));
            assert(quote_end_from(s, i, false) == quote_end_from(s, i + 1, false));
            lemma_quote_skips(s, i + 1, tail);
        }
    }
}

/// Inside a quoted string, escaped text never changes the delimiter depth.
proof fn lemma_close_skips(
    s: Seq<char>,
    open: char,
    close: char,
    i: int,
    depth: nat,
    v: Seq<char>,
)
    requires
        0 <= i,
        i + escaped(v).len() <= s.len(),
        s.subrange(i, i + escaped(v).len()) == escaped(v),
    ensures
        close_from(s, open, close, i, depth, true, false) == close_from(
            s,
            open,
            close,
            i + escaped(v).len(),
            depth,
            true,
            false,
        ),
    decreases v.len(),
{
    if v.len() > 0 {
        let c = v[0];
        let tail = v.subrange(1, v.len() as int);
        let e = escaped(v);
        assert(s.subrange(i, i + e.len())[0] == s[i]);
        assert(s[i] == e[0]);
        if c == '"' || c == '\\' || c == '\n' || c == '\t' {
            assert(e.subrange(2, e.len() as int) =~= escaped(tail));
            assert(s.subrange(i + 2, i + 2 + escaped(tail).len()) =~= escaped(tail));
            assert(close_from(s, open, close, i, depth, true, false) == close_from(
                s,
                open,
                close,
                i + 1,
                depth,
                true,
                true,
            ));
            assert(close_from(s, open, close, i + 1, depth, true, true) == close_from(
                s,
                open,
                close,
                i + 2,
                depth,
                true,
                false,
            ));
            lemma_close_skips(s, open, close, i + 2, depth, tail);
        } else {
            assert(e.subrange(1, e.len() as int) =~= escaped(tail));
            assert(s.subrange(i + 1, i + 1 + escaped(tail).len()) =~= escaped(tail));
            assert(close_from(s, open, close, i, depth, true, false) == close_from(
                s,
                open,
                close,
                i + 1,
                depth,
                true,
                false,
            ));
            lemma_close_skips(s, open, close, i + 1, depth, tail);
        }
    }
}

/// A scalar field whose value holds braces, brackets, commas or quotes, written
/// with its escapes, is read back whole, whatever follows it.
pub proof fn lemma_quoted_value_read_whole(key: Seq<char>, v: Seq<char>, rest: Seq<char>)
    ensures
        field_text(str_needle(key) + escaped(v) + seq!['"'] + rest, key) == Some(v),
{
    let nd = str_needle(key);
    let s = nd + escaped(v) + seq!['"'] + rest;
    assert(s.subrange(0, nd.len() as int) =~= nd);
    assert(occurs_at(s, nd, 0));
    let body = s.subrange(nd.len() as int, s.len() as int);
    let n = escaped(v).len() as int;
    assert(body =~= escaped(v) + seq!['"'] + rest);
    assert(body.subrange(0, n as int) =~= escaped(v));
    lemma_quote_skips(body, 0, v);
    assert(body[n as int] == '"');
    lemma_unescape_escaped(v);
}

/// A block whose field value holds braces, commas or quotes, written with its
/// escapes, ends at its own closing brace, and the value reads back whole.
pub proof fn lemma_block_with_quoted_value(
    key: Seq<char>,
    name: Seq<char>,
    v: Seq<char>,
    rest: Seq<char>,
)
    requires
        forall|i: int|
            0 <= i < name.len() ==> #[trigger] name[i] != '{' && name[i] != '}' && name[i] != '"'
                && name[i] != '\\',
    ensures
        field_block(
            block_needle(key) + str_needle(name) + escaped(v) + seq!['"', '}'] + rest,
            key,
        ) == Some(str_needle(name) + escaped(v) + seq!['"']),
        field_text(str_needle(name) + escaped(v) + seq!['"'], name) == Some(v),
{
    let nd = block_needle(key);
    let inner = str_needle(name) + escaped(v) + seq!['"'];
    let s = nd + inner + seq!['}'] + rest;
    assert(s =~= nd + str_needle(name) + escaped(v) + seq!['"', '}'] + rest);
    assert(s.subrange(0, nd.len() as int) =~= nd);
    assert(occurs_at(s, nd, 0));
    let body = s.subrange(nd.len() as int, s.len() as int);
    assert(body =~= inner + seq!['}'] + rest);
    let m = name.len() as int;
    let n = escaped(v).len() as int;
    // the key name is plain text at depth one
    assert(body.subrange(0, m) =~= name);
    assert forall|j: int| 0 <= j <= m implies close_from(body, '{', '}', j, 1, false, false)
        == close_from(body, '{', '}', m, 1, false, false) by {
        lemma_plain_prefix(body, name, j);
    }
    assert(body[m] == '=');
    assert(body[m + 1] == '"');
    assert(body.subrange(m + 2, m + 2 + n) =~= escaped(v));
    lemma_close_skips(body, '{', '}', m + 2, 1, v);
    assert(body[m + 2 + n] == '"');
    assert(body[m + 3 + n] == '}');
    assert(close_from(body, '{', '}', m, 1, false, false) == close_from(
        body,
        '{',
        '}',
        m + 1,
        1,
        false,
        false,
    ));
    assert(close_from(body, '{', '}', m + 1, 1, false, false) == close_from(
        body,
        '{',
        '}',
        m + 2,
        1,
        true,
        false,
    ));
    assert(close_from(body, '{', '}', m + 2 + n, 1, true, false) == close_from(
        body,
        '{',
        '}',
        m + 3 + n,
        1,
        false,
        false,
    ));
    assert(close_from(body, '{', '}', m + 3 + n, 1, false, false) == Some(m + 3 + n));
    assert(closing(body, '{', '}') == Some(m + 3 + n));
    assert(body.subrange(0, m + 3 + n) =~= inner);
    lemma_quoted_value_read_whole(name, v, seq![]);
    assert(inner + seq![] =~= inner);
}

proof fn lemma_plain_prefix(body: Seq<char>, name: Seq<char>, j: int)
    requires
        0 <= j <= name.len(),
        name.len() <= body.len(),
        body.subrange(0, name.len() as int) == name,
        forall|i: int|
            0 <= i < name.len() ==> #[trigger] name[i] != '{' && name[i] != '}' && name[i] != '"'
                && name[i] != '\\',
    ensures
        close_from(body, '{', '}', j, 1, false, false) == close_from(
            body,
            '{',
            '}',
            name.len() as int,
            1,
            false,
            false,
        ),
    decreases name.len() - j,
{
    if j < name.len() {
        assert(body[j] == name[j]);
        lemma_plain_prefix(body, name, j + 1);
    }
}

proof fn lemma_find_extend(a: Seq<char>, b: Seq<char>, p: Seq<char>, i: int)
    requires
        0 <= i,
        find_from(a, p, i) is Some,
    ensures
        find_from(a + b, p, i) == find_from(a, p, i),
    decreases a.len() + 1 - i,
{
    let s = a + b;
    if i + p.len() <= a.len() {
        assert(s.subrange(i, i + p.len()) =~= a.subrange(i, i + p.len()));
        if !occurs_at(a, p, i) {
            lemma_find_extend(a, b, p, i + 1);
        }
    }
}

/// A scalar field that follows a field whose value holds braces, commas or
/// quotes, written with its escapes, reads back whole, as does the first;
/// this holds where `k2="` does not already occur before the second field.
pub proof fn lemma_sibling_fields_read_whole(
    k1: Seq<char>,
    v: Seq<char>,
    k2: Seq<char>,
    w: Seq<char>,
    rest: Seq<char>,
)
    requires
        find(
            str_needle(k1) + escaped(v) + seq!['"', ','] + str_needle(k2),
            str_needle(k2),
        ) == Some((str_needle(k1) + escaped(v) + seq!['"', ',']).len() as int),
    ensures
        field_text(
            str_needle(k1) + escaped(v) + seq!['"', ','] + str_needle(k2) + escaped(w) + seq!['"']
                + rest,
            k1,
        ) == Some(v),
        field_text(
            str_needle(k1) + escaped(v) + seq!['"', ','] + str_needle(k2) + escaped(w) + seq!['"']
                + rest,
            k2,
        ) == Some(w),
{
    let pre = str_needle(k1) + escaped(v) + seq!['"', ','];
    let nd2 = str_needle(k2);
    let tail = escaped(w) + seq!['"'] + rest;
    let s = str_needle(k1) + escaped(v) + seq!['"', ','] + nd2 + escaped(w) + seq!['"'] + rest;
    assert(s =~= str_needle(k1) + escaped(v) + seq!['"'] + (seq![','] + nd2 + tail));
    lemma_quoted_value_read_whole(k1, v, seq![','] + nd2 + tail);
    assert(s =~= (pre + nd2) + tail);
    lemma_find_extend(pre + nd2, tail, nd2, 0);
    let p = pre.len() as int;
    let body = s.subrange(p + nd2.len(), s.len() as int);
    assert(body =~= tail);
    let n = escaped(w).len() as int;
    assert(body.subrange(0, n) =~= escaped(w));
    lemma_quote_skips(body, 0, w);
    assert(body[n] == '"');
    lemma_unescape_escaped(w);
}

/// A console record `~"b"` carries the unescaped body `b`; in particular the
/// escaped form of any text carries that text back.
pub proof fn lemma_console_round_trip(b: Seq<char>, v: Seq<char>)
    ensures
        line_event(seq!['~', '"'] + b + seq!['"']) == Some(
            EventView::Ui(UiEventView::ConsoleOutput(unescaped(b))),
        ),
        line_event(seq!['~', '"'] + escaped(v) + seq!['"']) == Some(
            EventView::Ui(UiEventView::ConsoleOutput(v)),
        ),
{
    lemma_console_body(b);
    lemma_console_body(escaped(v));
    lemma_unescape_escaped(v);
}

proof fn lemma_console_body(b: Seq<char>)
    ensures
        line_event(seq!['~', '"'] + b + seq!['"']) == Some(
            EventView::Ui(UiEventView::ConsoleOutput(unescaped(b))),
        ),
{
    reveal_strlit("(gdb)");
    let line = seq!['~', '"'] + b + seq!['"'];
    assert(line[0] == '~');
    assert(line != "(gdb)"@);
    assert(digit_run(line) == 0);
    assert(line.subrange(0, line.len() as int) =~= line);
    let body = line.subrange(1, line.len() as int);
    assert(body =~= seq!['"'] + b + seq!['"']);
    assert(lead_space(body) == 0);
    assert(body.subrange(0, body.len() as int) =~= body);
    assert(trail_space(body) == 0);
    assert(trimmed(body) =~= body);
    assert(body.subrange(1, body.len() - 1) =~= b);
}

/// Well-formed MI text, as a tree: plain characters, quoted strings holding
/// any text (written with its escapes), and nested `{...}` groups.
pub enum MiText {
    End,
    Plain(char, Box<MiText>),
    Quoted(Seq<char>, Box<MiText>),
    Nested(Box<MiText>, Box<MiText>),
}

/// The characters of an `MiText`.
pub open spec fn render(t: MiText) -> Seq<char>
    decreases t,
{
    match t {
        MiText::End => seq![],
        MiText::Plain(c, rest) => seq![c] + render(*rest),
        MiText::Quoted(v, rest) => seq!['"'] + escaped(v) + seq!['"'] + render(*rest),
        MiText::Nested(inner, rest) => seq!['{'] + render(*inner) + seq!['}'] + render(*rest),
    }
}

/// Plain characters are none of `\`, `"`, `{`, `}`; quoted text is free.
pub open spec fn plain_ok(t: MiText) -> bool
    decreases t,
{
    match t {
        MiText::End => true,
        MiText::Plain(c, rest) => c != '\\' && c != '"' && c != '{' && c != '}' && plain_ok(*rest),
        MiText::Quoted(_, rest) => plain_ok(*rest),
        MiText::Nested(inner, rest) => plain_ok(*inner) && plain_ok(*rest),
    }
}

/// The brace scanner passes over well-formed text at the depth it entered with.
proof fn lemma_close_skips_text(s: Seq<char>, i: int, depth: nat, t: MiText)
    requires
        0 <= i,
        depth >= 1,
        plain_ok(t),
        i + render(t).len() <= s.len(),
        s.subrange(i, i + render(t).len()) == render(t),
    ensures
        close_from(s, '{', '}', i, depth, false, false) == close_from(
            s,
            '{',
            '}',
            i + render(t).len(),
            depth,
            false,
            false,
        ),
    decreases t,
{
    let r = render(t);
    match t {
        MiText::End => {},
        MiText::Plain(c, rest) => {
            let n = render(*rest).len() as int;
            assert(s.subrange(i, i + r.len())[0] == s[i]);
            assert(s[i] == c);
            assert(s.subrange(i + 1, i + 1 + n) =~= render(*rest)) by {
                assert(r.subrange(1, r.len() as int) =~= render(*rest));
            }
            lemma_close_skips_text(s, i + 1, depth, *rest);
        },
        MiText::Quoted(v, rest) => {
            let e = escaped(v).len() as int;
            let n = render(*rest).len() as int;
            assert(s.subrange(i, i + r.len())[0] == s[i]);
            assert(s[i] == '"');
            assert(s.subrange(i + 1, i + 1 + e) =~= escaped(v)) by {
                assert(r.subrange(1, 1 + e) =~= escaped(v));
            }
            lemma_close_skips(s, '{', '}', i + 1, depth, v);
            assert(s.subrange(i, i + r.len())[1 + e] == s[i + 1 + e]);
            assert(s[i + 1 + e] == '"');
            assert(s.subrange(i + 2 + e, i + 2 + e + n) =~= render(*rest)) by {
                assert(r.subrange(2 + e, r.len() as int) =~= render(*rest));
            }
            assert(close_from(s, '{', '}', i, depth, false, false) == close_from(
                s,
                '{',
                '}',
                i + 1,
                depth,
                true,
                false,
            ));
            assert(close_from(s, '{', '}', i + 1 + e, depth, true, false) == close_from(
                s,
                '{',
                '}',
                i + 2 + e,
                depth,
                false,
                false,
            ));
            lemma_close_skips_text(s, i + 2 + e, depth, *rest);
        },
        MiText::Nested(inner, rest) => {
            let m = render(*inner).len() as int;
            let n = render(*rest).len() as int;
            assert(s.subrange(i, i + r.len())[0] == s[i]);
            assert(s[i] == '{');
            assert(s.subrange(i + 1, i + 1 + m) =~= render(*inner)) by {
                assert(r.subrange(1, 1 + m) =~= render(*inner));
            }
            lemma_close_skips_text(s, i + 1, depth + 1, *inner);
            assert(s.subrange(i, i + r.len())[1 + m] == s[i + 1 + m]);
            assert(s[i + 1 + m] == '}');
            assert(s.subrange(i + 2 + m, i + 2 + m + n) =~= render(*rest)) by {
                assert(r.subrange(2 + m, r.len() as int) =~= render(*rest));
            }
            assert(close_from(s, '{', '}', i, depth, false, false) == close_from(
                s,
                '{',
                '}',
                i + 1,
                depth + 1,
                false,
                false,
            ));
            assert(close_from(s, '{', '}', i + 1 + m, depth + 1, false, false) == close_from(
                s,
                '{',
                '}',
                i + 2 + m,
                depth,
                false,
                false,
            ));
            lemma_close_skips_text(s, i + 2 + m, depth, *rest);
        },
    }
}

/// A block field whose interior is well-formed MI text is extracted whole,
/// whatever braces, brackets, commas or escaped quotes its quoted strings
/// hold, wherever it stands and whatever follows it.
pub proof fn lemma_block_read_whole(p: Seq<char>, key: Seq<char>, t: MiText, q: Seq<char>)
    requires
        plain_ok(t),
        find(p + block_needle(key) + render(t) + seq!['}'] + q, block_needle(key)) == Some(
            p.len() as int,
        ),
    ensures
        field_block(p + block_needle(key) + render(t) + seq!['}'] + q, key) == Some(render(t)),
{
    let nd = block_needle(key);
    let s = p + nd + render(t) + seq!['}'] + q;
    let body = s.subrange((p.len() + nd.len()) as int, s.len() as int);
    let n = render(t).len() as int;
    assert(body =~= render(t) + seq!['}'] + q);
    assert(body.subrange(0, n) =~= render(t));
    lemma_close_skips_text(body, 0, 1, t);
    assert(body[n] == '}');
    assert(closing(body, '{', '}') == Some(n));
}

// ───────────────────────────── exec: fields ─────────────────────────────

/// Model of an optional sub-slice.
pub open spec fn opt_slice(r: Option<&[char]>) -> Option<Seq<char>> {
    match r {
        Some(b) => Some(b@),
        None => None,
    }
}

/// Whether `s` is exactly the text `lit`.
fn is_text(s: &[char], lit: &str) -> (r: bool)
    ensures
        r == (s@ == lit@),
{
    let l = chars_of(lit);
    same_chars(s, l.as_slice())
}

/// Whether the text `lit` occurs in `s`.
fn has_text(s: &[char], lit: &str) -> (r: bool)
    ensures
        r == contains(s@, lit@),
{
    let l = chars_of(lit);
    find_seq(s, l.as_slice()).is_some()
}

/// `key` followed by `=` and `c`.
fn needle(key: &str, c: char) -> (r: Vec<char>)
    ensures
        r@ == key@ + seq!['=', c],
{
    let mut n = chars_of(key);
    n.push('=');
    n.push(c);
    proof {
        assert(n@ =~= key@ + seq!['=', c]);
    }
    n
}

/// The unescaped value of the scalar field `key`.
fn lookup(fields: &[char], key: &str) -> (r: Option<Vec<char>>)
    ensures
        opt_chars(r) == field_text(fields@, key@),
{
    let nd = needle(key, '"');
    match find_seq(fields, nd.as_slice()) {
        None => None,
        Some(p) => {
            proof {
                lemma_scan_bounds(fields@);
            }
            let len_fields = fields.len();
            let rest = &fields[p + nd.len()..len_fields];
            match find_closing_quote(rest) {
                None => None,
                Some(e) => {
                    proof {
                        lemma_scan_bounds(rest@);
                    }
                    Some(unescape(&rest[0..e]))
                },
            }
        },
    }
}

/// The scalar field `key` read as a `u32`, or `d`.
fn lookup_u32(fields: &[char], key: &str, d: u32) -> (r: u32)
    ensures
        r == field_u32_or(fields@, key@, d),
{
    match lookup(fields, key) {
        Some(v) => match parse_decimal(v.as_slice()) {
            Some(n) => n,
            None => d,
        },
        None => d,
    }
}

/// The scalar field `key` as a string, or the empty string.
fn lookup_or_empty(fields: &[char], key: &str) -> (r: String)
    ensures
        r@ == field_or_empty(fields@, key@),
{
    match lookup(fields, key) {
        Some(v) => string_of(v.as_slice()),
        None => String::new(),
    }
}

/// The unescaped value of the scalar field `key="..."` in `fields`.
pub fn extract_str(fields: &str, key: &str) -> (r: Option<String>)
    ensures
        r.deep_view() == field_text(fields@, key@),
{
    let f = chars_of(fields);
    match lookup(f.as_slice(), key) {
        Some(v) => Some(string_of(v.as_slice())),
        None => None,
    }
}

/// The interior of the block field `key={...}`.
fn extract_block<'a>(fields: &'a [char], key: &str) -> (r: Option<&'a [char]>)
    ensures
        opt_slice(r) == field_block(fields@, key@),
{
    let nd = needle(key, '{');
    match find_seq(fields, nd.as_slice()) {
        None => None,
        Some(p) => {
            proof {
                lemma_scan_bounds(fields@);
            }
            let len_fields = fields.len();
            let rest = &fields[p + nd.len()..len_fields];
            match find_closing_brace(rest) {
                None => None,
                Some(e) => {
                    proof {
                        lemma_scan_bounds(rest@);
                    }
                    Some(&rest[0..e])
                },
            }
        },
    }
}

/// The interior of the list field `key=[...]`, or else of `key={...}`.
fn extract_list<'a>(fields: &'a [char], key: &str) -> (r: Option<&'a [char]>)
    ensures
        opt_slice(r) == field_list(fields@, key@),
{
    let nd = needle(key, '[');
    if let Some(p) = find_seq(fields, nd.as_slice()) {
        proof {
            lemma_scan_bounds(fields@);
        }
        let len_fields = fields.len();
        let rest = &fields[p + nd.len()..len_fields];
        if let Some(e) = find_closing_bracket(rest) {
            proof {
                lemma_scan_bounds(rest@);
            }
            return Some(&rest[0..e]);
        }
    }
    extract_block(fields, key)
}

/// `fullname`, else `file`, of a frame or breakpoint block.
fn source_file_of(block: &[char]) -> (r: Option<String>)
    ensures
        r.deep_view() == source_file(block@),
{
    match lookup(block, "fullname") {
        Some(v) => Some(string_of(v.as_slice())),
        None => match lookup(block, "file") {
            Some(v) => Some(string_of(v.as_slice())),
            None => None,
        },
    }
}

// ───────────────────────────── exec: records ─────────────────────────────

/// Decodes the interior of a `frame={...}` block.
fn parse_frame(block: &[char]) -> (r: Frame)
    ensures
        r.deep_view() == frame_of(block@),
{
    let addr = match lookup(block, "addr") {
        Some(v) => parse_address(v.as_slice()),
        None => 0,
    };
    let function = match lookup(block, "func") {
        Some(v) => string_of(v.as_slice()),
        None => "??".to_owned(),
    };
    let file = source_file_of(block);
    let line = match lookup(block, "line") {
        Some(v) => parse_decimal(v.as_slice()),
        None => None,
    };
    Frame { addr, function, file, line }
}

/// The frame of the `frame` block in `fields`.
fn parse_frame_field(fields: &[char]) -> (r: Option<Frame>)
    ensures
        r.deep_view() == match field_block(fields@, "frame"@) {
            Some(b) => Some(frame_of(b)),
            None => None,
        },
{
    match extract_block(fields, "frame") {
        Some(block) => Some(parse_frame(block)),
        None => None,
    }
}

fn copy_frame(f: &Frame) -> (r: Frame)
    ensures
        r.deep_view() == f.deep_view(),
{
    let file = match &f.file {
        Some(s) => Some(s.clone()),
        None => None,
    };
    Frame { addr: f.addr, function: f.function.clone(), file, line: f.line }
}

/// The breakpoint of the block field `key`.
fn parse_breakpoint_field(fields: &[char], key: &str) -> (r: Option<Breakpoint>)
    ensures
        r.deep_view() == breakpoint_of(fields@, key@),
{
    let block = match extract_block(fields, key) {
        Some(b) => b,
        None => return None,
    };
    let id = lookup_u32(block, "number", 0);
    let file = match source_file_of(block) {
        Some(f) => f,
        None => String::new(),
    };
    let line = lookup_u32(block, "line", 0);
    let enabled = match lookup(block, "enabled") {
        Some(v) => is_text(v.as_slice(), "y"),
        None => true,
    };
    Some(Breakpoint { id, file, line, enabled })
}

/// A local variable record; none without a name.
fn parse_single_variable(block: &[char]) -> (r: Option<Variable>)
    ensures
        r.deep_view() == variable_of(block@),
{
    let name = match lookup(block, "name") {
        Some(v) => v,
        None => return None,
    };
    let value = lookup_or_empty(block, "value");
    let type_ = lookup_or_empty(block, "type");
    if name.len() == 0 {
        return None;
    }
    Some(Variable { name: string_of(name.as_slice()), value, type_ })
}

/// Span of the interior of the next `{...}` block in `rest`.
fn next_block_span(rest: &[char]) -> (r: Option<(usize, usize)>)
    ensures
        match r {
            Some((a, b)) => next_block(rest@) == Some((a as int, b as int)) && 0 < a <= b
                < rest@.len(),
            None => next_block(rest@) is None,
        },
{
    proof {
        lemma_next_block(rest@);
        lemma_scan_bounds(rest@);
    }
    match find_char(rest, '{') {
        None => None,
        Some(st) => {
            let len_rest = rest.len();
            let inner = &rest[st + 1..len_rest];
            match find_closing_brace(inner) {
                None => None,
                Some(e) => Some((st + 1, st + 1 + e)),
            }
        },
    }
}

/// The locals of the `variables` list.
fn parse_variables(fields: &[char]) -> (r: Vec<Variable>)
    ensures
        r.deep_view() == variables_of(fields@),
{
    let mut vars: Vec<Variable> = Vec::new();
    let list = match extract_list(fields, "variables") {
        Some(l) => l,
        None => {
            proof {
                assert(vars.deep_view() =~= seq![]);
            }
            return vars;
        },
    };
    if find_char(list, '{').is_some() {
        let mut rest = list;
        proof {
            assert(vars.deep_view() + variables_in(rest@) =~= variables_in(list@));
        }
        loop
            invariant
                vars.deep_view() + variables_in(rest@) == variables_in(list@),
            ensures
                vars.deep_view() == variables_in(list@),
            decreases rest@.len(),
        {
            match next_block_span(rest) {
                None => {
                    proof {
                        assert(vars.deep_view() =~= vars.deep_view() + variables_in(rest@));
                    }
                    break ;
                },
                Some((a, b)) => {
                    let ghost before = vars.deep_view();
                    let ghost tail = variables_in(rest@.subrange(b + 1, rest@.len() as int));
                    if let Some(v) = parse_single_variable(&rest[a..b]) {
                        vars.push(v);
                        proof {
                            assert(vars.deep_view() =~= before.push(v.deep_view()));
                            assert(before + (seq![v.deep_view()] + tail) =~= vars.deep_view()
                                + tail);
                        }
                    }
                    let len_rest = rest.len();
                    rest = &rest[b + 1..len_rest];
                },
            }
        }
    } else {
        if let Some(v) = parse_single_variable(list) {
            vars.push(v);
            proof {
                assert(vars.deep_view() =~= seq![v.deep_view()]);
            }
        } else {
            proof {
                assert(vars.deep_view() =~= seq![]);
            }
        }
    }
    vars
}

/// The raw names of the `register-names` list.
fn parse_register_names(fields: &[char]) -> (r: Vec<String>)
    ensures
        r.deep_view() == register_names_of(fields@),
{
    let mut names: Vec<String> = Vec::new();
    let list = match extract_list(fields, "register-names") {
        Some(l) => l,
        None => {
            proof {
                assert(names.deep_view() =~= seq![]);
            }
            return names;
        },
    };
    let mut rest = list;
    proof {
        assert(names.deep_view() + names_in(rest@) =~= names_in(list@));
    }
    loop
        invariant
            names.deep_view() + names_in(rest@) == names_in(list@),
        ensures
            names.deep_view() == names_in(list@),
        decreases rest@.len(),
    {
        proof {
            lemma_scan_bounds(rest@);
        }
        match find_char(rest, '"') {
            None => {
                proof {
                    assert(names.deep_view() =~= names.deep_view() + names_in(rest@));
                }
                break ;
            },
            Some(q) => {
                let len_rest = rest.len();
                let r2 = &rest[q + 1..len_rest];
                proof {
                    lemma_scan_bounds(r2@);
                }
                match find_closing_quote(r2) {
                    None => {
                        proof {
                            assert(names.deep_view() =~= names.deep_view() + names_in(rest@));
                        }
                        break ;
                    },
                    Some(e) => {
                        let ghost before = names.deep_view();
                        let ghost tail = names_in(r2@.subrange(e + 1, r2@.len() as int));
                        let name = string_of(&r2[0..e]);
                        names.push(name);
                        proof {
                            assert(names.deep_view() =~= before.push(name@));
                            assert(before + (seq![name@] + tail) =~= names.deep_view() + tail);
                        }
                        let len_r2 = r2.len();
                        rest = &r2[e + 1..len_r2];
                    },
                }
            },
        }
    }
    names
}

/// A register value record.
fn parse_register(block: &[char]) -> (r: Register)
    ensures
        r.deep_view() == register_of(block@),
{
    let number = lookup_u32(block, "number", 0);
    let value = lookup_or_empty(block, "value");
    let reg = Register { number, name: String::new(), value };
    proof {
        assert(reg.deep_view() =~= register_of(block@));
    }
    reg
}

/// A disassembled-instruction record.
fn parse_asm_line(block: &[char]) -> (r: AsmLine)
    ensures
        r.deep_view() == asm_line_of(block@),
{
    let addr = match lookup(block, "address") {
        Some(v) => parse_address(v.as_slice()),
        None => 0,
    };
    let offset = lookup_u32(block, "offset", 0);
    let inst = lookup_or_empty(block, "inst");
    let insn = AsmLine { addr, offset, inst, current: false };
    proof {
        assert(insn.deep_view() =~= asm_line_of(block@));
    }
    insn
}

/// The registers of the `register-values` list.
fn parse_registers(fields: &[char]) -> (r: Vec<Register>)
    ensures
        r.deep_view() == registers_of(fields@),
{
    let mut regs: Vec<Register> = Vec::new();
    let list = match extract_list(fields, "register-values") {
        Some(l) => l,
        None => {
            proof {
                assert(regs.deep_view() =~= seq![]);
            }
            return regs;
        },
    };
    if find_char(list, '{').is_none() {
        if list.len() > 0 {
            let one = parse_register(list);
            regs.push(one);
            proof {
                assert(regs.deep_view() =~= seq![one.deep_view()]);
            }
        } else {
            proof {
                assert(regs.deep_view() =~= seq![]);
            }
        }
        return regs;
    }
    let mut rest = list;
    proof {
        assert(regs.deep_view() + registers_in(rest@) =~= registers_in(list@));
    }
    loop
        invariant
            regs.deep_view() + registers_in(rest@) == registers_in(list@),
        ensures
            regs.deep_view() == registers_in(list@),
        decreases rest@.len(),
    {
        match next_block_span(rest) {
            None => {
                proof {
                    assert(regs.deep_view() =~= regs.deep_view() + registers_in(rest@));
                }
                break ;
            },
            Some((a, b)) => {
                let ghost before = regs.deep_view();
                let ghost tail = registers_in(rest@.subrange(b + 1, rest@.len() as int));
                let reg = parse_register(&rest[a..b]);
                regs.push(reg);
                proof {
                    assert(regs.deep_view() =~= before.push(reg.deep_view()));
                    assert(before + (seq![reg.deep_view()] + tail) =~= regs.deep_view() + tail);
                }
                let len_rest = rest.len();
                rest = &rest[b + 1..len_rest];
            },
        }
    }
    regs
}

/// The instructions of the `asm_insns` list.
fn parse_disasm(fields: &[char]) -> (r: Vec<AsmLine>)
    ensures
        r.deep_view() == asm_lines_of(fields@),
{
    let mut lines: Vec<AsmLine> = Vec::new();
    let list = match extract_list(fields, "asm_insns") {
        Some(l) => l,
        None => {
            proof {
                assert(lines.deep_view() =~= seq![]);
            }
            return lines;
        },
    };
    if find_char(list, '{').is_none() {
        if list.len() > 0 {
            let one = parse_asm_line(list);
            lines.push(one);
            proof {
                assert(lines.deep_view() =~= seq![one.deep_view()]);
            }
        } else {
            proof {
                assert(lines.deep_view() =~= seq![]);
            }
        }
        return lines;
    }
    let mut rest = list;
    proof {
        assert(lines.deep_view() + asm_lines_in(rest@) =~= asm_lines_in(list@));
    }
    loop
        invariant
            lines.deep_view() + asm_lines_in(rest@) == asm_lines_in(list@),
        ensures
            lines.deep_view() == asm_lines_in(list@),
        decreases rest@.len(),
    {
        match next_block_span(rest) {
            None => {
                proof {
                    assert(lines.deep_view() =~= lines.deep_view() + asm_lines_in(rest@));
                }
                break ;
            },
            Some((a, b)) => {
                let ghost before = lines.deep_view();
                let ghost tail = asm_lines_in(rest@.subrange(b + 1, rest@.len() as int));
                let insn = parse_asm_line(&rest[a..b]);
                lines.push(insn);
                proof {
                    assert(lines.deep_view() =~= before.push(insn.deep_view()));
                    assert(before + (seq![insn.deep_view()] + tail) =~= lines.deep_view() + tail);
                }
                let len_rest = rest.len();
                rest = &rest[b + 1..len_rest];
            },
        }
    }
    lines
}

// ───────────────────────────── exec: lines ─────────────────────────────

/// Length of the correlation token that starts `s`.
fn token_length(s: &[char]) -> (r: usize)
    ensures
        r == token_len(s@),
        r <= s@.len(),
{
    let n = s.len();
    let mut i: usize = 0;
    proof {
        assert(s@.subrange(0, n as int) =~= s@);
    }
    while i < n && '0' <= s[i] && s[i] <= '9'
        invariant
            n == s@.len(),
            i <= n,
            digit_run(s@) == i + digit_run(s@.subrange(i as int, n as int)),
        decreases n - i,
    {
        proof {
            let rest = s@.subrange(i as int, n as int);
            assert(rest.subrange(1, rest.len() as int) =~= s@.subrange(i + 1, n as int));
        }
        i += 1;
    }
    if i == n {
        0
    } else {
        i
    }
}

/// `line` without its leading correlation token.
pub fn strip_token(line: &str) -> (r: &str)
    ensures
        r@ == without_token(line@),
{
    let cs = chars_of(line);
    let k = token_length(cs.as_slice());
    line.substring_char(k, cs.len())
}

/// Splits a record body at its first comma into class and fields.
fn split_class_fields(s: &[char]) -> (r: (&[char], &[char]))
    ensures
        (r.0@, r.1@) == class_and_fields(s@),
{
    proof {
        lemma_scan_bounds(s@);
    }
    let n = s.len();
    match find_char(s, ',') {
        Some(i) => (&s[0..i], &s[i + 1..n]),
        None => {
            let empty: &[char] = &s[n..n];
            proof {
                assert(empty@ =~= seq![]);
                assert(s@.subrange(0, n as int) =~= s@);
            }
            (&s[0..n], empty)
        },
    }
}

/// Why a `*stopped` record stopped.
fn parse_stop_reason(fields: &[char]) -> (r: StopReason)
    ensures
        r.deep_view() == stop_reason_of(fields@),
{
    match lookup(fields, "reason") {
        Some(reason) => {
            let reason = reason.as_slice();
            if is_text(reason, "breakpoint-hit") {
                StopReason::BreakpointHit(lookup_u32(fields, "bkptno", 0))
            } else if is_text(reason, "end-stepping-range") || is_text(reason, "step-over-range") {
                StopReason::EndStepping
            } else if is_text(reason, "signal-received") {
                StopReason::Signal(lookup_or_empty(fields, "signal-name"))
            } else {
                StopReason::Unknown
            }
        },
        None => StopReason::Unknown,
    }
}

/// Decodes a `*` record; `line` starts with the sigil.
fn parse_exec_async(line: &[char]) -> (r: Option<DebuggerEvent>)
    requires
        line@.len() > 0,
    ensures
        event_view(r) == exec_event(
            class_and_fields(line@.subrange(1, line@.len() as int)).0,
            class_and_fields(line@.subrange(1, line@.len() as int)).1,
        ),
{
    let n = line.len();
    let (class, fields) = split_class_fields(&line[1..n]);
    if is_text(class, "running") {
        Some(DebuggerEvent::State(StateEvent::ProgramStarted))
    } else if is_text(class, "stopped") {
        let reason = parse_stop_reason(fields);
        let frame = match parse_frame_field(fields) {
            Some(f) => f,
            None => return None,
        };
        let stack = vec![copy_frame(&frame)];
        let thread_id = lookup_u32(fields, "thread-id", 1);
        let pause = PauseState { thread_id, frame, stack, stop_reason: reason };
        proof {
            assert(pause.stack.deep_view() =~= seq![pause.frame.deep_view()]);
        }
        Some(DebuggerEvent::State(StateEvent::ProgramPaused { pause }))
    } else {
        None
    }
}

/// Decodes a `=` record; `line` starts with the sigil.
fn parse_notify_async(line: &[char]) -> (r: Option<DebuggerEvent>)
    requires
        line@.len() > 0,
    ensures
        event_view(r) == notify_event(
            class_and_fields(line@.subrange(1, line@.len() as int)).0,
            class_and_fields(line@.subrange(1, line@.len() as int)).1,
        ),
{
    let n = line.len();
    let (class, fields) = split_class_fields(&line[1..n]);
    if is_text(class, "breakpoint-created") || is_text(class, "breakpoint-modified") {
        match parse_breakpoint_field(fields, "bkpt") {
            Some(bp) => Some(DebuggerEvent::State(StateEvent::BreakpointAdded { breakpoint: bp })),
            None => None,
        }
    } else if is_text(class, "breakpoint-deleted") {
        match lookup(fields, "id") {
            Some(v) => match parse_decimal(v.as_slice()) {
                Some(id) => Some(DebuggerEvent::State(StateEvent::BreakpointRemoved { id })),
                None => None,
            },
            None => None,
        }
    } else {
        None
    }
}

/// Decodes the payload of a `^done` record.
fn parse_done(fields: &[char]) -> (r: Option<DebuggerEvent>)
    ensures
        event_view(r) == done_event(fields@),
{
    if has_text(fields, "bkpt=") {
        if let Some(bp) = parse_breakpoint_field(fields, "bkpt") {
            return Some(DebuggerEvent::State(StateEvent::BreakpointAdded { breakpoint: bp }));
        }
    }
    if has_text(fields, "variables=") {
        let vars = parse_variables(fields);
        if vars.len() > 0 {
            return Some(DebuggerEvent::State(StateEvent::LocalsUpdated { vars }));
        }
    }
    if has_text(fields, "register-names=") {
        let names = parse_register_names(fields);
        return Some(DebuggerEvent::State(StateEvent::RegisterNamesReceived { names }));
    }
    if has_text(fields, "register-values=") {
        let registers = parse_registers(fields);
        if registers.len() > 0 {
            return Some(DebuggerEvent::State(StateEvent::RegistersUpdated { registers }));
        }
    }
    if has_text(fields, "asm_insns=") {
        let lines = parse_disasm(fields);
        if lines.len() > 0 {
            return Some(DebuggerEvent::State(StateEvent::DisasmUpdated { lines }));
        }
    }
    None
}

/// Decodes a `^` record; `line` starts with the sigil.
fn parse_result(line: &[char]) -> (r: Option<DebuggerEvent>)
    requires
        line@.len() > 0,
    ensures
        event_view(r) == result_event(
            class_and_fields(line@.subrange(1, line@.len() as int)).0,
            class_and_fields(line@.subrange(1, line@.len() as int)).1,
        ),
{
    let n = line.len();
    let (class, fields) = split_class_fields(&line[1..n]);
    if is_text(class, "error") {
        let msg = match lookup(fields, "msg") {
            Some(v) => string_of(v.as_slice()),
            None => "GDB error".to_owned(),
        };
        Some(DebuggerEvent::Ui(UiEvent::GdbError(msg)))
    } else if is_text(class, "done") {
        parse_done(fields)
    } else if is_text(class, "running") {
        Some(DebuggerEvent::State(StateEvent::ProgramStarted))
    } else if is_text(class, "exit") {
        Some(DebuggerEvent::State(StateEvent::ProgramExited { code: None }))
    } else {
        None
    }
}

/// Decodes a `~` console stream record.
fn parse_console_stream(line: &[char]) -> (r: Option<DebuggerEvent>)
    requires
        line@.len() > 0,
    ensures
        event_view(r) == Some(
            EventView::Ui(
                UiEventView::ConsoleOutput(unquoted(line@.subrange(1, line@.len() as int))),
            ),
        ),
{
    let n = line.len();
    let text = unquote(&line[1..n]);
    Some(DebuggerEvent::Ui(UiEvent::ConsoleOutput(string_of(text.as_slice()))))
}

/// Decodes a `@` target-output stream record.
fn parse_target_stream(line: &[char]) -> (r: Option<DebuggerEvent>)
    requires
        line@.len() > 0,
    ensures
        event_view(r) == Some(
            EventView::Ui(
                UiEventView::ConsoleOutput(
                    "[target] "@ + unquoted(line@.subrange(1, line@.len() as int)),
                ),
            ),
        ),
{
    let n = line.len();
    let text = unquote(&line[1..n]);
    let mut out = chars_of("[target] ");
    push_all(&mut out, text.as_slice());
    Some(DebuggerEvent::Ui(UiEvent::ConsoleOutput(string_of(out.as_slice()))))
}

/// Decodes one line of debugger output; prompts, empty lines, logs and
/// unknown records give no event.
pub fn parse_line(line: &str) -> (r: Option<DebuggerEvent>)
    ensures
        event_view(r) == line_event(line@),
        line@ == "(gdb)"@ || line@.len() == 0 ==> r is None,
{
    let cs = chars_of(line);
    if is_text(cs.as_slice(), "(gdb)") || cs.len() == 0 {
        return None;
    }
    let n = cs.len();
    let k = token_length(cs.as_slice());
    let l = &cs.as_slice()[k..n];
    if l.len() == 0 {
        return None;
    }
    let sigil = l[0];
    if sigil == '~' {
        parse_console_stream(l)
    } else if sigil == '@' {
        parse_target_stream(l)
    } else if sigil == '*' {
        parse_exec_async(l)
    } else if sigil == '=' {
        parse_notify_async(l)
    } else if sigil == '^' {
        parse_result(l)
    } else {
        None
    }
}

} // verus!
