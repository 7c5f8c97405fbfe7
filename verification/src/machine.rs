//! The execution semantics of instruction sequences.
//!
//! `exec_from` is a specification-level interpreter: it runs a sequence of
//! instructions against a value stack and a variable environment and yields
//! either a final machine state or a fault.  The executable machine in `vm`
//! and the code builders in `bytecode` state their contracts over it.

use vstd::prelude::*;

use crate::code::CodeV;

verus! {

/// A fatal fault.  A run that faults has no result and cannot be resumed.
#[derive(Clone, Copy, Debug, PartialEq, Eq, Structural)]
pub enum Fault {
    /// An instruction (or the final result extraction) found too few values
    /// on the stack.
    Underflow,
    /// A `Get` ran for a name with no prior binding.
    Unbound,
    /// An arithmetic result left the machine integer range.
    Overflow,
}

/// The state of a run: the value stack and the variable environment.
#[verifier::ext_equal]
pub ghost struct State {
    pub stack: Seq<isize>,
    pub env: Map<Seq<char>, isize>,
}

/// The outcome of running some instructions from a state.
pub ghost enum Outcome {
    /// All instructions ran; this is the state they left behind.
    Done(State),
    /// A fault stopped the run.
    Faulted(Fault),
}

/// The state a fresh machine starts in: empty stack, empty environment.
pub open spec fn init_state() -> State {
    State { stack: Seq::empty(), env: Map::empty() }
}

/// The effect of one instruction on a state.
///
/// `Store` pushes the *previous* binding of the name (or the default `0` if
/// the name was never bound), not the value just written: an exchange-like
/// semantics that every realization must honor exactly.
pub open spec fn step(c: CodeV, st: State) -> Outcome {
    match c {
        CodeV::Load(num) => Outcome::Done(State { stack: st.stack.push(num), env: st.env }),
        CodeV::Neg => {
            if st.stack.len() == 0 {
                Outcome::Faulted(Fault::Underflow)
            } else {
                let x = st.stack.last();
                let r = -(x as int);
                if r < isize::MIN as int || r > isize::MAX as int {
                    Outcome::Faulted(Fault::Overflow)
                } else {
                    Outcome::Done(
                        State { stack: st.stack.drop_last().push(r as isize), env: st.env },
                    )
                }
            }
        },
        CodeV::Add => {
            if st.stack.len() < 2 {
                Outcome::Faulted(Fault::Underflow)
            } else {
                let right = st.stack.last();
                let left = st.stack[st.stack.len() - 2];
                let r = left as int + right as int;
                if r < isize::MIN as int || r > isize::MAX as int {
                    Outcome::Faulted(Fault::Overflow)
                } else {
                    Outcome::Done(
                        State {
                            stack: st.stack.drop_last().drop_last().push(r as isize),
                            env: st.env,
                        },
                    )
                }
            }
        },
        CodeV::Get(name) => {
            if st.env.dom().contains(name) {
                Outcome::Done(State { stack: st.stack.push(st.env[name]), env: st.env })
            } else {
                Outcome::Faulted(Fault::Unbound)
            }
        },
        CodeV::Store(name) => {
            if st.stack.len() == 0 {
                Outcome::Faulted(Fault::Underflow)
            } else {
                let val = st.stack.last();
                let prev: isize = if st.env.dom().contains(name) {
                    st.env[name]
                } else {
                    0
                };
                Outcome::Done(
                    State { stack: st.stack.drop_last().push(prev), env: st.env.insert(name, val) },
                )
            }
        },
        CodeV::Drop => {
            if st.stack.len() == 0 {
                Outcome::Faulted(Fault::Underflow)
            } else {
                Outcome::Done(State { stack: st.stack.drop_last(), env: st.env })
            }
        },
    }
}

/// Run `code` from position `pos` in state `st` until the end of the
/// sequence or the first fault.  The position only ever advances by one, so
/// every run terminates.
pub open spec fn exec_from(code: Seq<CodeV>, pos: int, st: State) -> Outcome
    decreases code.len() - pos,
{
    if pos < 0 || pos >= code.len() {
        Outcome::Done(st)
    } else {
        match step(code[pos], st) {
            Outcome::Done(next) => exec_from(code, pos + 1, next),
            Outcome::Faulted(f) => Outcome::Faulted(f),
        }
    }
}

/// Run a whole sequence from a given state.
pub open spec fn exec_seq(code: Seq<CodeV>, st: State) -> Outcome {
    exec_from(code, 0, st)
}

/// Run a whole sequence on a fresh machine.
pub open spec fn exec(code: Seq<CodeV>) -> Outcome {
    exec_seq(code, init_state())
}

/// Running from position `pos` is running the tail of the sequence from its
/// start.
pub proof fn lemma_exec_from_is_skip(code: Seq<CodeV>, pos: int, st: State)
    requires
        0 <= pos <= code.len(),
    ensures
        exec_from(code, pos, st) == exec_seq(code.skip(pos), st),
    decreases code.len() - pos,
{
    if pos == code.len() {
        assert(code.skip(pos) =~= Seq::empty());
    } else {
        assert(code.skip(pos)[0] == code[pos]);
        match step(code[pos], st) {
            Outcome::Done(next) => {
                lemma_exec_from_is_skip(code, pos + 1, next);
                lemma_exec_from_is_skip(code.skip(pos), 1, next);
                assert(code.skip(pos).skip(1) =~= code.skip(pos + 1));
            },
            Outcome::Faulted(_) => {},
        }
    }
}

/// Sequencing: running `c1 + c2` is running `c1`, then, if it did not
/// fault, running `c2` from the state it left behind.
pub proof fn lemma_exec_append(c1: Seq<CodeV>, c2: Seq<CodeV>, st: State)
    ensures
        exec_seq(c1 + c2, st) == (match exec_seq(c1, st) {
            Outcome::Done(mid) => exec_seq(c2, mid),
            Outcome::Faulted(f) => Outcome::Faulted(f),
        }),
    decreases c1.len(),
{
    if c1.len() == 0 {
        assert(c1 + c2 =~= c2);
    } else {
        assert((c1 + c2)[0] == c1[0]);
        match step(c1[0], st) {
            Outcome::Done(next) => {
                lemma_exec_from_is_skip(c1 + c2, 1, next);
                assert((c1 + c2).skip(1) =~= c1.skip(1) + c2);
                lemma_exec_append(c1.skip(1), c2, next);
                lemma_exec_from_is_skip(c1, 1, next);
            },
            Outcome::Faulted(_) => {},
        }
    }
}

/// The net stack effect of running `code` from one given state is to push
/// exactly one value: the run either halts with one new value on top of the
/// untouched incoming stack, or faults — and never by stack underflow.
pub open spec fn one_value_outcome(code: Seq<CodeV>, st: State) -> bool {
    match exec_seq(code, st) {
        Outcome::Done(halted) => halted.stack.len() == st.stack.len() + 1
            && halted.stack.drop_last() == st.stack,
        Outcome::Faulted(f) => f != Fault::Underflow,
    }
}

/// The fixed net stack effect of a compiled expression: from every state,
/// the sequence pushes exactly one value (or faults, never by underflow).
///
/// This is the well-formedness invariant of compiled programs; the lemmas
/// in `bytecode` show that every algebra operation emits a sequence with
/// this property, by structural composition.
pub open spec fn extends_by_one(code: Seq<CodeV>) -> bool {
    forall|st: State| #[trigger] one_value_outcome(code, st)
}

/// A whole program with the one-value net effect, run on a fresh machine,
/// either halts with exactly one value — its result — or faults, and never
/// by stack underflow.
pub proof fn lemma_whole_run(code: Seq<CodeV>)
    requires
        extends_by_one(code),
    ensures
        match exec(code) {
            Outcome::Done(halted) => halted.stack.len() == 1,
            Outcome::Faulted(f) => f != Fault::Underflow,
        },
{
    assert(one_value_outcome(code, init_state()));
}

/// A single `Load(n)`, run alone, halts with `n` as the one value on the
/// stack and an untouched environment.
pub proof fn lemma_load_single(num: isize)
    ensures
        exec(seq![CodeV::Load(num)]) == Outcome::Done(
            State { stack: seq![num], env: Map::empty() },
        ),
{
    let code = seq![CodeV::Load(num)];
    let halted = State { stack: seq![num], env: Map::empty() };
    assert(step(code[0], init_state()) == Outcome::Done(halted)) by {
        assert(init_state().stack.push(num) =~= seq![num]);
    }
    assert(exec_from(code, 1, halted) == Outcome::Done(halted));
}

/// A `Get` with no prior binding anywhere in the program faults with
/// `Unbound`.
pub proof fn lemma_get_unbound(name: Seq<char>)
    ensures
        exec(seq![CodeV::Get(name)]) == Outcome::Faulted(Fault::Unbound),
{
    assert(!init_state().env.dom().contains(name));
}

} // verus!

