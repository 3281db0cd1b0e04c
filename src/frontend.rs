//! The front end's own state: the debugger state it mirrors and the console
//! log it shows, updated one event at a time.
use vstd::prelude::*;

use crate::command::Command;
use crate::registers::{display_order, rank};
use crate::session::{follow_up_commands, follow_ups};
use crate::state::{
    step, DebuggerEvent, DebuggerState, EventView, RegisterView, UiEvent, UiEventView,
};
use crate::text::{chars_of, decimal, decimal_chars, push_all, string_of};

verus! {

/// Most rows the register table shows.
pub const REGISTER_ROWS: usize = 30;

/// One row of the register table.
pub struct RegisterRow {
    pub name: String,
    pub value: String,
}

pub struct RegisterRowView {
    pub name: Seq<char>,
    pub value: Seq<char>,
}

impl DeepView for RegisterRow {
    type V = RegisterRowView;

    open spec fn deep_view(&self) -> RegisterRowView {
        RegisterRowView { name: self.name@, value: self.value@ }
    }
}

/// A register's display name: its entry in the name table, or `#` and its
/// number where the table has none.
pub open spec fn register_label(number: u32, names: Seq<Seq<char>>) -> Seq<char> {
    if (number as int) < names.len() {
        names[number as int]
    } else {
        seq!['#'] + decimal(number as nat)
    }
}

/// Registers paired with their display names, in the order received.
pub open spec fn labelled(regs: Seq<RegisterView>, names: Seq<Seq<char>>) -> Seq<RegisterRowView> {
    regs.map_values(
        |r: RegisterView| RegisterRowView { name: register_label(r.number, names), value: r.value },
    )
}

/// The rows of rank `k`, in their order.
pub open spec fn of_rank(rows: Seq<RegisterRowView>, k: int) -> Seq<RegisterRowView> {
    rows.filter(|row: RegisterRowView| rank(row.name) == k)
}

/// The rows of ranks `k` and above, by rank, each rank in its order.
pub open spec fn by_rank_from(rows: Seq<RegisterRowView>, k: int) -> Seq<RegisterRowView>
    decreases 100 - k,
{
    if k < 0 || k >= 100 {
        seq![]
    } else {
        of_rank(rows, k) + by_rank_from(rows, k + 1)
    }
}

/// The rows of ranks below `k`, by rank, each rank in its order.
pub open spec fn by_rank_below(rows: Seq<RegisterRowView>, k: int) -> Seq<RegisterRowView>
    decreases k,
{
    if k <= 0 {
        seq![]
    } else {
        by_rank_below(rows, k - 1) + of_rank(rows, k - 1)
    }
}

/// The register table: rows ordered by display rank, stably, at most
/// `REGISTER_ROWS` of them.
pub open spec fn register_table(regs: Seq<RegisterView>, names: Seq<Seq<char>>) -> Seq<
    RegisterRowView,
> {
    let sorted = by_rank_from(labelled(regs, names), 0);
    if sorted.len() > REGISTER_ROWS {
        sorted.take(REGISTER_ROWS as int)
    } else {
        sorted
    }
}

proof fn lemma_by_rank_split(rows: Seq<RegisterRowView>, k: int)
    requires
        0 <= k <= 100,
    ensures
        by_rank_below(rows, k) + by_rank_from(rows, k) == by_rank_from(rows, 0),
    decreases k,
{
    if k > 0 {
        lemma_by_rank_split(rows, k - 1);
        assert(by_rank_below(rows, k) + by_rank_from(rows, k) =~= by_rank_below(rows, k - 1) + (
        of_rank(rows, k - 1) + by_rank_from(rows, k)));
    } else {
        assert(by_rank_below(rows, 0) + by_rank_from(rows, 0) =~= by_rank_from(rows, 0));
    }
}

fn copy_row(r: &RegisterRow) -> (c: RegisterRow)
    ensures
        c.deep_view() == r.deep_view(),
{
    RegisterRow { name: r.name.clone(), value: r.value.clone() }
}

/// A front end: the state it mirrors and the lines of its console.
pub struct App {
    pub state: DebuggerState,
    pub console_log: Vec<String>,
}

impl App {
    pub fn new(state: DebuggerState) -> (r: Self)
        ensures
            r.state@ == state@,
            r.console_log@.len() == 0,
    {
        App { state, console_log: Vec::new() }
    }

    /// Takes in one event: state events go to the reducer, console text and
    /// errors to the log. Returns the queries to issue next.
    pub fn handle_event(&mut self, event: DebuggerEvent) -> (r: Vec<Command>)
        ensures
            match event.deep_view() {
                EventView::State(e) => {
                    &&& final(self).state@ == step(old(self).state@, e)
                    &&& final(self).console_log.deep_view() == old(self).console_log.deep_view()
                    &&& r.deep_view() == follow_ups(e)
                },
                EventView::Ui(UiEventView::ConsoleOutput(t)) => {
                    &&& final(self).state@ == old(self).state@
                    &&& final(self).console_log.deep_view() == old(
                        self,
                    ).console_log.deep_view().push(t)
                    &&& r@.len() == 0
                },
                EventView::Ui(UiEventView::GdbError(m)) => {
                    &&& final(self).state@ == old(self).state@
                    &&& final(self).console_log.deep_view() == old(
                        self,
                    ).console_log.deep_view().push("[ERROR] "@ + m)
                    &&& r@.len() == 0
                },
            },
    {
        let ghost log0 = self.console_log.deep_view();
        match event {
            DebuggerEvent::State(e) => {
                let queries = follow_up_commands(&e);
                self.state.apply(e);
                queries
            },
            DebuggerEvent::Ui(UiEvent::ConsoleOutput(text)) => {
                let ghost t = text@;
                self.console_log.push(text);
                proof {
                    assert(self.console_log.deep_view() =~= log0.push(t));
                }
                Vec::new()
            },
            DebuggerEvent::Ui(UiEvent::GdbError(err)) => {
                let mut line = chars_of("[ERROR] ");
                let e = chars_of(err.as_str());
                push_all(&mut line, e.as_slice());
                let entry = string_of(line.as_slice());
                self.console_log.push(entry);
                proof {
                    assert(self.console_log.deep_view() =~= log0.push("[ERROR] "@ + err@));
                }
                Vec::new()
            },
        }
    }

    /// The register table: each register under its name from the name table,
    /// ordered by display rank (stable), at most `REGISTER_ROWS` rows.
    pub fn register_rows(&self) -> (r: Vec<RegisterRow>)
        ensures
            r.deep_view() == register_table(
                self.state@.registers,
                self.state@.register_names,
            ),
    {
        let regs = &self.state.registers;
        let names = &self.state.register_names;
        let ghost nv = self.state@.register_names;
        let ghost rv = self.state@.registers;
        let n = regs.len();
        let mut rows: Vec<RegisterRow> = Vec::new();
        let mut ranks: Vec<u32> = Vec::new();
        let mut i: usize = 0;
        while i < n
            invariant
                n == regs@.len(),
                i <= n,
                rv == regs.deep_view(),
                nv == names.deep_view(),
                rows.deep_view() == labelled(rv.take(i as int), nv),
                rows@.len() == i,
                ranks@.len() == i,
                forall|j: int| 0 <= j < i ==> ranks@[j] == rank(#[trigger] rows@[j].name@),
            decreases n - i,
        {
            let reg = &regs[i];
            proof {
                assert(rv[i as int] == reg.deep_view());
            }
            let name = if (reg.number as usize) < names.len() {
                proof {
                    assert(nv[reg.number as int] == names@[reg.number as int]@);
                }
                names[reg.number as usize].clone()
            } else {
                let mut label = vec!['#'];
                let digits = decimal_chars(reg.number as u64);
                push_all(&mut label, digits.as_slice());
                proof {
                    assert(label@ =~= seq!['#'] + decimal(reg.number as nat));
                }
                string_of(label.as_slice())
            };
            proof {
                assert(name@ == register_label(reg.number, nv));
            }
            let row = RegisterRow { name, value: reg.value.clone() };
            proof {
                assert(row.deep_view() == RegisterRowView {
                    name: register_label(rv[i as int].number, nv),
                    value: rv[i as int].value,
                });
            }
            ranks.push(display_order(row.name.as_str()));
            let ghost before = rows.deep_view();
            let ghost rowv = row.deep_view();
            rows.push(row);
            proof {
                assert(rv.take(i + 1) =~= rv.take(i as int).push(rv[i as int]));
                assert(rows.deep_view() =~= before.push(rowv));
                assert(labelled(rv.take(i + 1), nv) =~= labelled(rv.take(i as int), nv).push(rowv));
            }
            i += 1;
        }
        proof {
            assert(rv.take(n as int) =~= rv);
        }
        let ghost all = labelled(rv, nv);
        let mut out: Vec<RegisterRow> = Vec::new();
        let mut k: u32 = 0;
        while k < 100
            invariant
                k <= 100,
                n == rows@.len(),
                all == rows.deep_view(),
                ranks@.len() == n,
                forall|j: int| 0 <= j < n ==> ranks@[j] == rank(#[trigger] rows@[j].name@),
                out.deep_view() == by_rank_below(all, k as int),
            decreases 100 - k,
        {
            let ghost pred = |row: RegisterRowView| rank(row.name) == k as int;
            let mut j: usize = 0;
            while j < n
                invariant
                    k < 100,
                    j <= n,
                    n == rows@.len(),
                    all == rows.deep_view(),
                    ranks@.len() == n,
                    forall|j: int| 0 <= j < n ==> ranks@[j] == rank(#[trigger] rows@[j].name@),
                    pred == (|row: RegisterRowView| rank(row.name) == k as int),
                    out.deep_view() == by_rank_below(all, k as int) + all.take(j as int).filter(
                        pred,
                    ),
                decreases n - j,
            {
                let ghost before = out.deep_view();
                proof {
                    assert(all[j as int] == rows@[j as int].deep_view());
                }
                if ranks[j] == k {
                    out.push(copy_row(&rows[j]));
                    proof {
                        assert(out.deep_view() =~= before.push(all[j as int]));
                    }
                }
                proof {
                    assert(all.take(j + 1) =~= all.take(j as int).push(all[j as int]));
                    all.take(j as int).lemma_filter_push(all[j as int], pred);
                }
                j += 1;
            }
            proof {
                assert(all.take(n as int) =~= all);
                assert(by_rank_below(all, k + 1) == by_rank_below(all, k as int) + of_rank(
                    all,
                    k as int,
                ));
            }
            k += 1;
        }
        proof {
            lemma_by_rank_split(all, 100);
            assert(by_rank_below(all, 100) =~= by_rank_from(all, 0));
        }
        if out.len() > REGISTER_ROWS {
            out.truncate(REGISTER_ROWS);
            proof {
                assert(out.deep_view() =~= by_rank_from(all, 0).take(REGISTER_ROWS as int));
            }
        }
        out
    }
}

} // verus!
