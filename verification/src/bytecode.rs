//! The bytecode builder: the algebra realized as flat instruction
//! sequences.
//!
//! Each operation assembles its instructions directly — there is no
//! intermediate tree.  The spec functions below pin down exactly which
//! sequence each operation emits, and the net-stack-effect lemmas show that
//! every emitted sequence pushes exactly one value and never underflows.

use vstd::prelude::*;

use crate::algebra::Auto;
use crate::algebra::ST;
use crate::algebra::Sub;
use crate::code::Code;
use crate::code::CodeV;
use crate::machine::exec_from;
use crate::machine::exec_seq;
use crate::machine::extends_by_one;
use crate::machine::lemma_exec_append;
use crate::machine::one_value_outcome;
use crate::machine::step;
use crate::machine::Fault;
use crate::machine::Outcome;
use crate::machine::State;

verus! {

/// The code a block emits: every sub-expression except the last is followed
/// by a `Drop` that discards its value; the last one's value remains as the
/// value of the block.
pub open spec fn block_code(exprs: Seq<Seq<CodeV>>) -> Seq<CodeV>
    decreases exprs.len(),
{
    if exprs.len() == 0 {
        Seq::empty()
    } else if exprs.len() == 1 {
        exprs[0]
    } else {
        exprs[0] + seq![CodeV::Drop] + block_code(exprs.skip(1))
    }
}

impl Auto for Vec<Code> {

}

impl ST for Vec<Code> {
    open spec fn lit_spec(num: isize) -> Seq<CodeV> {
        seq![CodeV::Load(num)]
    }

    open spec fn neg_spec(num: Seq<CodeV>) -> Seq<CodeV> {
        num.push(CodeV::Neg)
    }

    open spec fn add_spec(left: Seq<CodeV>, right: Seq<CodeV>) -> Seq<CodeV> {
        (left + right).push(CodeV::Add)
    }

    open spec fn get_spec(var: Seq<char>) -> Seq<CodeV> {
        seq![CodeV::Get(var)]
    }

    open spec fn set_spec(var: Seq<char>, val: Seq<CodeV>) -> Seq<CodeV> {
        val.push(CodeV::Store(var))
    }

    open spec fn block_spec(exprs: Seq<Seq<CodeV>>) -> Seq<CodeV> {
        block_code(exprs)
    }

    fn lit(num: isize) -> (r: Self) {
        let mut r: Vec<Code> = Vec::new();
        r.push(Code::Load(num));
        proof {
            assert(r.deep_view() =~= seq![CodeV::Load(num)]);
        }
        r
    }

    fn neg(num: Self) -> (r: Self) {
        let mut r = num;
        let ghost pre = r.deep_view();
        r.push(Code::Neg);
        proof {
            assert(r.deep_view() =~= pre.push(CodeV::Neg));
        }
        r
    }

    fn add(left: Self, right: Self) -> (r: Self) {
        let mut r = left;
        let mut rest = right;
        let ghost pre_left = r.deep_view();
        let ghost pre_right = rest.deep_view();
        r.append(&mut rest);
        proof {
            assert(r.deep_view() =~= pre_left + pre_right);
        }
        let ghost joined = r.deep_view();
        r.push(Code::Add);
        proof {
            assert(r.deep_view() =~= joined.push(CodeV::Add));
        }
        r
    }

    fn get(var: String) -> (r: Self) {
        let ghost name = var@;
        let mut r: Vec<Code> = Vec::new();
        r.push(Code::Get(var));
        proof {
            assert(r.deep_view() =~= seq![CodeV::Get(name)]);
        }
        r
    }

    fn set(var: String, val: Self) -> (r: Self) {
        let ghost name = var@;
        let mut r = val;
        let ghost pre = r.deep_view();
        r.push(Code::Store(var));
        proof {
            assert(r.deep_view() =~= pre.push(CodeV::Store(name)));
        }
        r
    }

    #[verifier::loop_isolation(false)]
    fn block(exprs: Vec<Self>) -> (r: Self) {
        let ghost views = exprs.deep_view();
        let ghost n = views.len() as int;
        let mut rest = exprs;
        let mut rev: Vec<Vec<Code>> = Vec::new();
        while rest.len() > 0
            invariant
                rest@.len() + rev@.len() == n,
                forall|i: int| 0 <= i < rest@.len() ==> rest.deep_view()[i] == views[i],
                forall|i: int|
                    0 <= i < rev@.len() ==> rev.deep_view()[i] == views[n - 1 - i],
            decreases rest.len(),
        {
            let ghost rest0 = rest;
            let ghost rev0 = rev;
            let e = match rest.pop() {
                Some(e) => e,
                None => {
                    proof {
                        assert(false);
                    }
                    Vec::new()
                },
            };
            rev.push(e);
            proof {
                assert(rest0.deep_view()[rest0@.len() - 1] == rest0@[rest0@.len()
                    - 1].deep_view());
                assert forall|i: int|
                    0 <= i < rev@.len() implies rev.deep_view()[i] == views[n - 1 - i] by {
                    assert(rev.deep_view()[i] == rev@[i].deep_view());
                    if i < rev@.len() - 1 {
                        assert(rev0.deep_view()[i] == rev0@[i].deep_view());
                    }
                }
                assert forall|i: int|
                    0 <= i < rest@.len() implies rest.deep_view()[i] == views[i] by {
                    assert(rest.deep_view()[i] == rest@[i].deep_view());
                    assert(rest0.deep_view()[i] == rest0@[i].deep_view());
                }
            }
        }
        let mut combined: Vec<Code> = Vec::new();
        proof {
            assert(views.skip(0) =~= views);
            assert(combined.deep_view() + block_code(views) =~= block_code(views));
        }
        while rev.len() > 1
            invariant
                1 <= rev@.len() <= n,
                forall|i: int|
                    0 <= i < rev@.len() ==> rev.deep_view()[i] == views[n - 1 - i],
                combined.deep_view() + block_code(views.skip(n - rev@.len())) == block_code(views),
            decreases rev.len(),
        {
            let ghost k: int = n - rev@.len();
            let ghost pre = combined.deep_view();
            let ghost rev0 = rev;
            let mut e = match rev.pop() {
                Some(e) => e,
                None => {
                    proof {
                        assert(false);
                    }
                    Vec::new()
                },
            };
            let ghost evs = e.deep_view();
            proof {
                assert(rev0.deep_view()[rev0@.len() - 1] == rev0@[rev0@.len() - 1].deep_view());
                assert(evs == views[k]);
                assert forall|i: int|
                    0 <= i < rev@.len() implies rev.deep_view()[i] == views[n - 1 - i] by {
                    assert(rev.deep_view()[i] == rev@[i].deep_view());
                    assert(rev0.deep_view()[i] == rev0@[i].deep_view());
                }
            }
            combined.append(&mut e);
            combined.push(Code::Drop);
            proof {
                assert(combined.deep_view() =~= pre + evs + seq![CodeV::Drop]);
                assert(views.skip(k)[0] == views[k]);
                assert(views.skip(k).skip(1) =~= views.skip(k + 1));
                assert(block_code(views.skip(k)) == views[k] + seq![CodeV::Drop] + block_code(
                    views.skip(k + 1),
                ));
                assert(combined.deep_view() + block_code(views.skip(k + 1)) =~= block_code(views));
            }
        }
        let ghost pre = combined.deep_view();
        let ghost rev0 = rev;
        let mut e = match rev.pop() {
            Some(e) => e,
            None => {
                proof {
                    assert(false);
                }
                Vec::new()
            },
        };
        proof {
            assert(rev0.deep_view()[0] == rev0@[0].deep_view());
            assert(e.deep_view() == views[n - 1]);
            assert(block_code(views.skip(n - 1)) == views.skip(n - 1)[0]);
        }
        combined.append(&mut e);
        proof {
            assert(combined.deep_view() =~= pre + views[n - 1]);
        }
        combined
    }
}

/// A sequence of one instruction runs as one step of that instruction.
proof fn lemma_exec_single(c: CodeV, st: State)
    ensures
        exec_seq(seq![c], st) == step(c, st),
{
    let code = seq![c];
    match step(code[0], st) {
        Outcome::Done(next) => {
            assert(exec_from(code, 1, next) == Outcome::Done(next));
        },
        Outcome::Faulted(_) => {},
    }
}

/// The code of a literal has the one-value net effect.
pub proof fn lemma_lit_one_value(num: isize)
    ensures
        extends_by_one(<Vec<Code> as ST>::lit_spec(num)),
{
    let code = <Vec<Code> as ST>::lit_spec(num);
    assert forall|st: State| one_value_outcome(code, st) by {
        lemma_exec_single(CodeV::Load(num), st);
        assert(st.stack.push(num).drop_last() =~= st.stack);
    }
}

/// The code of a variable read has the one-value net effect: it pushes the
/// binding, or faults with `Unbound` — never by underflow.
pub proof fn lemma_get_one_value(var: Seq<char>)
    ensures
        extends_by_one(<Vec<Code> as ST>::get_spec(var)),
{
    let code = <Vec<Code> as ST>::get_spec(var);
    assert forall|st: State| one_value_outcome(code, st) by {
        lemma_exec_single(CodeV::Get(var), st);
        if st.env.dom().contains(var) {
            assert(st.stack.push(st.env[var]).drop_last() =~= st.stack);
        }
    }
}

/// Negation preserves the one-value net effect: its operand leaves one
/// value, and `Neg` replaces it in place.
pub proof fn lemma_neg_one_value(num: Seq<CodeV>)
    requires
        extends_by_one(num),
    ensures
        extends_by_one(<Vec<Code> as ST>::neg_spec(num)),
{
    let code = <Vec<Code> as ST>::neg_spec(num);
    assert forall|st: State| one_value_outcome(code, st) by {
        assert(code =~= num + seq![CodeV::Neg]);
        lemma_exec_append(num, seq![CodeV::Neg], st);
        assert(one_value_outcome(num, st));
        match exec_seq(num, st) {
            Outcome::Done(mid) => {
                lemma_exec_single(CodeV::Neg, mid);
                match step(CodeV::Neg, mid) {
                    Outcome::Done(halted) => {
                        assert(halted.stack.drop_last() =~= st.stack);
                    },
                    Outcome::Faulted(_) => {},
                }
            },
            Outcome::Faulted(_) => {},
        }
    }
}

/// Addition composes the one-value net effects of its operands: the left
/// operand's value and the right operand's value are replaced by their sum.
pub proof fn lemma_add_one_value(left: Seq<CodeV>, right: Seq<CodeV>)
    requires
        extends_by_one(left),
        extends_by_one(right),
    ensures
        extends_by_one(<Vec<Code> as ST>::add_spec(left, right)),
{
    let code = <Vec<Code> as ST>::add_spec(left, right);
    assert forall|st: State| one_value_outcome(code, st) by {
        assert(code =~= (left + right) + seq![CodeV::Add]);
        lemma_exec_append(left + right, seq![CodeV::Add], st);
        lemma_exec_append(left, right, st);
        assert(one_value_outcome(left, st));
        match exec_seq(left, st) {
            Outcome::Done(mid1) => {
                assert(one_value_outcome(right, mid1));
                match exec_seq(right, mid1) {
                    Outcome::Done(mid2) => {
                        lemma_exec_single(CodeV::Add, mid2);
                        match step(CodeV::Add, mid2) {
                            Outcome::Done(halted) => {
                                assert(mid2.stack.drop_last().drop_last() =~= st.stack);
                                assert(halted.stack.drop_last() =~= st.stack);
                            },
                            Outcome::Faulted(_) => {},
                        }
                    },
                    Outcome::Faulted(_) => {},
                }
            },
            Outcome::Faulted(_) => {},
        }
    }
}

/// Running the derived subtraction's code from any state yields exactly
/// what running the code of `add(left, neg(right))` yields: the two are the
/// same instruction sequence, so every run of one is a run of the other.
pub proof fn lemma_sub_runs_as_add_neg(left: Seq<CodeV>, right: Seq<CodeV>, st: State)
    ensures
        exec_seq(<Vec<Code> as Sub>::sub_spec(left, right), st) == exec_seq(
            <Vec<Code> as ST>::add_spec(left, <Vec<Code> as ST>::neg_spec(right)),
            st,
        ),
{
}

/// The derived subtraction has the one-value net effect whenever its
/// operands do: its code is exactly that of `add(left, neg(right))`.
pub proof fn lemma_sub_one_value(left: Seq<CodeV>, right: Seq<CodeV>)
    requires
        extends_by_one(left),
        extends_by_one(right),
    ensures
        extends_by_one(<Vec<Code> as Sub>::sub_spec(left, right)),
{
    lemma_neg_one_value(right);
    lemma_add_one_value(left, <Vec<Code> as ST>::neg_spec(right));
}

/// A variable write preserves the one-value net effect: the written value is
/// replaced by the previous binding (or the default `0`).
pub proof fn lemma_set_one_value(var: Seq<char>, val: Seq<CodeV>)
    requires
        extends_by_one(val),
    ensures
        extends_by_one(<Vec<Code> as ST>::set_spec(var, val)),
{
    let code = <Vec<Code> as ST>::set_spec(var, val);
    assert forall|st: State| one_value_outcome(code, st) by {
        assert(code =~= val + seq![CodeV::Store(var)]);
        lemma_exec_append(val, seq![CodeV::Store(var)], st);
        assert(one_value_outcome(val, st));
        match exec_seq(val, st) {
            Outcome::Done(mid) => {
                lemma_exec_single(CodeV::Store(var), mid);
                match step(CodeV::Store(var), mid) {
                    Outcome::Done(halted) => {
                        assert(halted.stack.drop_last() =~= st.stack);
                    },
                    Outcome::Faulted(_) => {},
                }
            },
            Outcome::Faulted(_) => {},
        }
    }
}

/// The code of a literal pushes that literal, from any state, and leaves
/// the environment alone.
pub proof fn lemma_lit_evaluates(num: isize, st: State)
    ensures
        exec_seq(<Vec<Code> as ST>::lit_spec(num), st) == Outcome::Done(
            State { stack: st.stack.push(num), env: st.env },
        ),
{
    lemma_exec_single(CodeV::Load(num), st);
}

/// The code of a variable read pushes the current binding of the name, and
/// leaves the environment alone; with no binding it faults with `Unbound`.
pub proof fn lemma_get_evaluates(var: Seq<char>, st: State)
    ensures
        exec_seq(<Vec<Code> as ST>::get_spec(var), st) == (if st.env.dom().contains(var) {
            Outcome::Done(State { stack: st.stack.push(st.env[var]), env: st.env })
        } else {
            Outcome::Faulted(Fault::Unbound)
        }),
{
    lemma_exec_single(CodeV::Get(var), st);
}

/// When the operand's code pushes `v`, the code of `neg` pushes `-v` and
/// leaves the operand's environment in place.
pub proof fn lemma_neg_evaluates(num: Seq<CodeV>, st: State, v: isize, env1: Map<Seq<char>, isize>)
    requires
        exec_seq(num, st) == Outcome::Done(State { stack: st.stack.push(v), env: env1 }),
        isize::MIN <= -(v as int) <= isize::MAX,
    ensures
        exec_seq(<Vec<Code> as ST>::neg_spec(num), st) == Outcome::Done(
            State { stack: st.stack.push((-(v as int)) as isize), env: env1 },
        ),
{
    let mid = State { stack: st.stack.push(v), env: env1 };
    assert(<Vec<Code> as ST>::neg_spec(num) =~= num + seq![CodeV::Neg]);
    lemma_exec_append(num, seq![CodeV::Neg], st);
    lemma_exec_single(CodeV::Neg, mid);
    assert(mid.stack.drop_last() =~= st.stack);
}

/// The left operand's code runs first and `Add` pops the right value first
/// and the left value second: when the left code pushes `va` and the right
/// code, run next, pushes `vb`, the code of `add(left, right)` pushes
/// `va + vb` and leaves the right operand's environment in place.
pub proof fn lemma_add_evaluates(
    left: Seq<CodeV>,
    right: Seq<CodeV>,
    st: State,
    va: isize,
    vb: isize,
    env1: Map<Seq<char>, isize>,
    env2: Map<Seq<char>, isize>,
)
    requires
        exec_seq(left, st) == Outcome::Done(State { stack: st.stack.push(va), env: env1 }),
        exec_seq(right, State { stack: st.stack.push(va), env: env1 }) == Outcome::Done(
            State { stack: st.stack.push(va).push(vb), env: env2 },
        ),
        isize::MIN <= va + vb <= isize::MAX,
    ensures
        exec_seq(<Vec<Code> as ST>::add_spec(left, right), st) == Outcome::Done(
            State { stack: st.stack.push((va + vb) as isize), env: env2 },
        ),
{
    let mid2 = State { stack: st.stack.push(va).push(vb), env: env2 };
    assert(<Vec<Code> as ST>::add_spec(left, right) =~= (left + right) + seq![CodeV::Add]);
    lemma_exec_append(left + right, seq![CodeV::Add], st);
    lemma_exec_append(left, right, st);
    lemma_exec_single(CodeV::Add, mid2);
    assert(mid2.stack.drop_last().drop_last() =~= st.stack);
}

/// The derived subtraction evaluates left-biased: when the left code pushes
/// `va` and the right code, run next, pushes `vb`, the code of
/// `sub(left, right)` pushes `va - vb` — not `vb - va`.
pub proof fn lemma_sub_evaluates(
    left: Seq<CodeV>,
    right: Seq<CodeV>,
    st: State,
    va: isize,
    vb: isize,
    env1: Map<Seq<char>, isize>,
    env2: Map<Seq<char>, isize>,
)
    requires
        exec_seq(left, st) == Outcome::Done(State { stack: st.stack.push(va), env: env1 }),
        exec_seq(right, State { stack: st.stack.push(va), env: env1 }) == Outcome::Done(
            State { stack: st.stack.push(va).push(vb), env: env2 },
        ),
        isize::MIN <= -(vb as int) <= isize::MAX,
        isize::MIN <= va - vb <= isize::MAX,
    ensures
        exec_seq(<Vec<Code> as Sub>::sub_spec(left, right), st) == Outcome::Done(
            State { stack: st.stack.push((va - vb) as isize), env: env2 },
        ),
{
    let mid1 = State { stack: st.stack.push(va), env: env1 };
    lemma_neg_evaluates(right, mid1, vb, env2);
    let nv = (-(vb as int)) as isize;
    lemma_add_evaluates(left, <Vec<Code> as ST>::neg_spec(right), st, va, nv, env1, env2);
}

/// When the written expression's code pushes `v`, the code of `set` binds
/// the name to `v` and pushes the previous binding of the name — or the
/// default `0` if the name was never bound.
pub proof fn lemma_set_evaluates(
    var: Seq<char>,
    val: Seq<CodeV>,
    st: State,
    v: isize,
    env1: Map<Seq<char>, isize>,
)
    requires
        exec_seq(val, st) == Outcome::Done(State { stack: st.stack.push(v), env: env1 }),
    ensures
        exec_seq(<Vec<Code> as ST>::set_spec(var, val), st) == Outcome::Done(
            State {
                stack: st.stack.push(
                    if env1.dom().contains(var) {
                        env1[var]
                    } else {
                        0
                    },
                ),
                env: env1.insert(var, v),
            },
        ),
{
    let mid = State { stack: st.stack.push(v), env: env1 };
    assert(<Vec<Code> as ST>::set_spec(var, val) =~= val + seq![CodeV::Store(var)]);
    lemma_exec_append(val, seq![CodeV::Store(var)], st);
    lemma_exec_single(CodeV::Store(var), mid);
    assert(mid.stack.drop_last() =~= st.stack);
}

/// A block of expressions that each have the one-value net effect has it as
/// a whole: every dropped intermediate value is neutralized, and the last
/// expression's value remains.
pub proof fn lemma_block_one_value(exprs: Seq<Seq<CodeV>>)
    requires
        exprs.len() > 0,
        forall|i: int| 0 <= i < exprs.len() ==> extends_by_one(#[trigger] exprs[i]),
    ensures
        extends_by_one(<Vec<Code> as ST>::block_spec(exprs)),
    decreases exprs.len(),
{
    let code = block_code(exprs);
    if exprs.len() == 1 {
        assert(extends_by_one(exprs[0]));
    } else {
        let rest = exprs.skip(1);
        assert(forall|i: int| 0 <= i < rest.len() ==> extends_by_one(#[trigger] rest[i]));
        lemma_block_one_value(rest);
        assert forall|st: State| one_value_outcome(code, st) by {
            lemma_exec_append(exprs[0] + seq![CodeV::Drop], block_code(rest), st);
            lemma_exec_append(exprs[0], seq![CodeV::Drop], st);
            assert(one_value_outcome(exprs[0], st));
            match exec_seq(exprs[0], st) {
                Outcome::Done(mid) => {
                    lemma_exec_single(CodeV::Drop, mid);
                    match step(CodeV::Drop, mid) {
                        Outcome::Done(cleared) => {
                            assert(cleared.stack =~= st.stack);
                            assert(one_value_outcome(block_code(rest), cleared));
                        },
                        Outcome::Faulted(_) => {},
                    }
                },
                Outcome::Faulted(_) => {},
            }
        }
    }
}

} // verus!
