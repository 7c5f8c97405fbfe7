//! The stack machine: an executable interpreter for instruction sequences.

use vstd::prelude::*;

use crate::code::Code;
use crate::machine::exec_from;
use crate::machine::Fault;
use crate::machine::Outcome;
use crate::machine::State;

use vstd::hash_map::StringHashMap;

verus! {

/// A machine bound to one instruction sequence, with a program counter, a
/// value stack and a variable environment.  A machine is single-use: one
/// construction, one run.
pub struct VM {
    pub code: Vec<Code>,
    pub place: usize,
    pub stack: Vec<isize>,
    pub vars: StringHashMap<isize>,
}

impl VM {
    /// The machine state as the spec interpreter sees it.
    pub open spec fn st(&self) -> State {
        State { stack: self.stack@, env: self.vars@ }
    }

    /// What running the rest of this machine's program must yield, according
    /// to the spec interpreter.
    pub open spec fn remaining(&self) -> Outcome {
        exec_from(self.code.deep_view(), self.place as int, self.st())
    }

    /// A fresh machine for the given program: counter at the start, empty
    /// stack, empty environment.
    pub fn new(code: Vec<Code>) -> (vm: VM)
        ensures
            vm.code@ == code@,
            vm.place == 0,
            vm.stack@ == Seq::<isize>::empty(),
            vm.vars@ == Map::<Seq<char>, isize>::empty(),
    {
        VM { code, place: 0, stack: Vec::new(), vars: StringHashMap::new() }
    }

    /// Execute the remaining instructions to completion and extract the
    /// result: the value left on top of the stack.
    ///
    /// The outcome is exactly what the spec interpreter prescribes: the top
    /// of the final stack on a fault-free run, and otherwise the fault that
    /// stopped the run (with `Underflow` also covering a run that halts with
    /// an empty stack, where no result can be extracted).
    pub fn try_run(&mut self) -> (r: Result<isize, Fault>)
        ensures
            match old(self).remaining() {
                Outcome::Done(st) => r == if st.stack.len() > 0 {
                    Result::<isize, Fault>::Ok(st.stack.last())
                } else {
                    Result::<isize, Fault>::Err(Fault::Underflow)
                },
                Outcome::Faulted(f) => r == Result::<isize, Fault>::Err(f),
            },
    {
        while self.place < self.code.len()
            invariant
                self.remaining() == old(self).remaining(),
            decreases self.code.len() - self.place,
        {
            let ghost pre = *self;
            let ghost codev = self.code.deep_view();
            match &self.code[self.place] {
                Code::Load(num) => {
                    self.stack.push(*num);
                },
                Code::Neg => {
                    let x = match self.stack.pop() {
                        Some(x) => x,
                        None => { return Err(Fault::Underflow) },
                    };
                    if x == isize::MIN {
                        return Err(Fault::Overflow);
                    }
                    self.stack.push(-x);
                },
                Code::Add => {
                    let right = match self.stack.pop() {
                        Some(x) => x,
                        None => { return Err(Fault::Underflow) },
                    };
                    let left = match self.stack.pop() {
                        Some(x) => x,
                        None => { return Err(Fault::Underflow) },
                    };
                    let sum: i128 = left as i128 + right as i128;
                    if sum < isize::MIN as i128 || sum > isize::MAX as i128 {
                        return Err(Fault::Overflow);
                    }
                    self.stack.push(sum as isize);
                    proof {
                        assert(self.st().stack =~= pre.st().stack.drop_last().drop_last().push(
                            sum as isize,
                        ));
                    }
                },
                Code::Get(var) => {
                    let val = match self.vars.get(var.as_str()) {
                        Some(v) => *v,
                        None => { return Err(Fault::Unbound) },
                    };
                    self.stack.push(val);
                },
                Code::Store(var) => {
                    let val = match self.stack.pop() {
                        Some(x) => x,
                        None => { return Err(Fault::Underflow) },
                    };
                    let prev = match self.vars.get(var.as_str()) {
                        Some(v) => *v,
                        None => 0,
                    };
                    self.vars.insert(var.clone(), val);
                    self.stack.push(prev);
                },
                Code::Drop => {
                    if self.stack.pop().is_none() {
                        return Err(Fault::Underflow);
                    }
                },
            }
            self.place = self.place + 1;
            proof {
                assert(exec_from(codev, pre.place as int, pre.st()) == exec_from(
                    codev,
                    pre.place + 1,
                    self.st(),
                ));
            }
        }
        match self.stack.pop() {
            Some(v) => Ok(v),
            None => Err(Fault::Underflow),
        }
    }

    /// Execute to completion and return the final result.
    ///
    /// The precondition is the well-formedness invariant of compiled
    /// programs: the remaining instructions run without fault and leave
    /// exactly one value on the stack.  Every sequence built through the
    /// algebra satisfies the fault-free part whenever its variable reads are
    /// preceded by writes and its arithmetic stays in range.
    pub fn run(&mut self) -> (r: isize)
        requires
            old(self).remaining() matches Outcome::Done(st) && st.stack.len() == 1,
        ensures
            old(self).remaining() matches Outcome::Done(st) ==> r == st.stack[0],
    {
        let res = self.try_run();
        match res {
            Ok(v) => v,
            Err(_) => {
                proof {
                    assert(false);
                }
                0
            },
        }
    }
}

} // verus!
