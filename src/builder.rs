//! A fluent way to accumulate a program and run it on a machine of its own.
use vstd::prelude::*;

use crate::error::ExecError;
use crate::machine::StackMachine;
use crate::op::{copy_code, Instruction, Op};
use crate::semantics::{extends, replay, run, validate, Outcome, State, MAX_DEPTH};

verus! {

pub struct Builder {
    pub sm: StackMachine,
    pub code: Vec<Instruction>,
}

impl Builder {
    /// A builder with no instructions, over a fresh machine with `memsize`
    /// bytes of scratch memory.
    pub fn new(memsize: u32) -> (r: Builder)
        ensures
            r.sm.state() == (State {
                stack: Seq::empty(),
                functions: Seq::empty(),
                natives: Seq::empty(),
                pid: 0,
                last_pid: 0,
                child: false,
                output: Seq::empty(),
                calls: Seq::empty(),
            }),
            r.code@ == Seq::<Instruction>::empty(),
    {
        let r = Builder { sm: StackMachine::new(memsize), code: Vec::new() };
        assert(r.code@ =~= Seq::<Instruction>::empty());
        r
    }

    fn push(&mut self, line: Instruction)
        ensures
            final(self).code@ == old(self).code@.push(line),
            final(self).sm == old(self).sm,
    {
        self.code.push(line);
    }

    /// Appends `line` and hands the builder back for the next call.
    fn append(&mut self, line: Instruction) -> (r: &mut Builder)
        ensures
            r.code@ == old(self).code@.push(line),
            r.sm == old(self).sm,
            *final(self) == *final(r),
    {
        self.push(line);
        self
    }

    pub fn print(&mut self) -> (r: &mut Builder)
        ensures
            r.code@ == old(self).code@.push((Op::Print, None)),
            r.sm == old(self).sm,
            *final(self) == *final(r),
    {
        self.append((Op::Print, None))
    }

    /// Appends `Const arg`.
    pub fn const_(&mut self, arg: i32) -> (r: &mut Builder)
        ensures
            r.code@ == old(self).code@.push((Op::Const, Some(arg))),
            r.sm == old(self).sm,
            *final(self) == *final(r),
    {
        self.append((Op::Const, Some(arg)))
    }

    pub fn add(&mut self) -> (r: &mut Builder)
        ensures
            r.code@ == old(self).code@.push((Op::Add, None)),
            r.sm == old(self).sm,
            *final(self) == *final(r),
    {
        self.append((Op::Add, None))
    }

    pub fn sub(&mut self) -> (r: &mut Builder)
        ensures
            r.code@ == old(self).code@.push((Op::Sub, None)),
            r.sm == old(self).sm,
            *final(self) == *final(r),
    {
        self.append((Op::Sub, None))
    }

    pub fn mul(&mut self) -> (r: &mut Builder)
        ensures
            r.code@ == old(self).code@.push((Op::Mul, None)),
            r.sm == old(self).sm,
            *final(self) == *final(r),
    {
        self.append((Op::Mul, None))
    }

    pub fn div(&mut self) -> (r: &mut Builder)
        ensures
            r.code@ == old(self).code@.push((Op::Div, None)),
            r.sm == old(self).sm,
            *final(self) == *final(r),
    {
        self.append((Op::Div, None))
    }

    /// Appends a `Call` by a name popped off the stack.
    pub fn call(&mut self) -> (r: &mut Builder)
        ensures
            r.code@ == old(self).code@.push((Op::Call, None)),
            r.sm == old(self).sm,
            *final(self) == *final(r),
    {
        self.append((Op::Call, None))
    }

    /// Appends a `CallExt` by a name popped off the stack.
    pub fn call_ext(&mut self) -> (r: &mut Builder)
        ensures
            r.code@ == old(self).code@.push((Op::CallExt, None)),
            r.sm == old(self).sm,
            *final(self) == *final(r),
    {
        self.append((Op::CallExt, None))
    }

    pub fn fork(&mut self) -> (r: &mut Builder)
        ensures
            r.code@ == old(self).code@.push((Op::Fork, None)),
            r.sm == old(self).sm,
            *final(self) == *final(r),
    {
        self.append((Op::Fork, None))
    }

    pub fn child(&mut self) -> (r: &mut Builder)
        ensures
            r.code@ == old(self).code@.push((Op::Child, None)),
            r.sm == old(self).sm,
            *final(self) == *final(r),
    {
        self.append((Op::Child, None))
    }

    /// Appends `If`.
    pub fn if_(&mut self) -> (r: &mut Builder)
        ensures
            r.code@ == old(self).code@.push((Op::If, None)),
            r.sm == old(self).sm,
            *final(self) == *final(r),
    {
        self.append((Op::If, None))
    }

    pub fn eq(&mut self) -> (r: &mut Builder)
        ensures
            r.code@ == old(self).code@.push((Op::Eq, None)),
            r.sm == old(self).sm,
            *final(self) == *final(r),
    {
        self.append((Op::Eq, None))
    }

    pub fn not(&mut self) -> (r: &mut Builder)
        ensures
            r.code@ == old(self).code@.push((Op::Not, None)),
            r.sm == old(self).sm,
            *final(self) == *final(r),
    {
        self.append((Op::Not, None))
    }

    pub fn gt(&mut self) -> (r: &mut Builder)
        ensures
            r.code@ == old(self).code@.push((Op::GT, None)),
            r.sm == old(self).sm,
            *final(self) == *final(r),
    {
        self.append((Op::GT, None))
    }

    pub fn lt(&mut self) -> (r: &mut Builder)
        ensures
            r.code@ == old(self).code@.push((Op::LT, None)),
            r.sm == old(self).sm,
            *final(self) == *final(r),
    {
        self.append((Op::LT, None))
    }

    pub fn gte(&mut self) -> (r: &mut Builder)
        ensures
            r.code@ == old(self).code@.push((Op::GTE, None)),
            r.sm == old(self).sm,
            *final(self) == *final(r),
    {
        self.append((Op::GTE, None))
    }

    pub fn lte(&mut self) -> (r: &mut Builder)
        ensures
            r.code@ == old(self).code@.push((Op::LTE, None)),
            r.sm == old(self).sm,
            *final(self) == *final(r),
    {
        self.append((Op::LTE, None))
    }

    pub fn end_if(&mut self) -> (r: &mut Builder)
        ensures
            r.code@ == old(self).code@.push((Op::EndIf, None)),
            r.sm == old(self).sm,
            *final(self) == *final(r),
    {
        self.append((Op::EndIf, None))
    }

    pub fn get_pid(&mut self) -> (r: &mut Builder)
        ensures
            r.code@ == old(self).code@.push((Op::GetPid, None)),
            r.sm == old(self).sm,
            *final(self) == *final(r),
    {
        self.append((Op::GetPid, None))
    }

    /// Runs everything accumulated so far on the builder's machine. The
    /// instructions stay, so a later call runs them again.
    pub fn execute(&mut self) -> (r: Result<&StackMachine, ExecError>)
        ensures
            final(self).code@ == old(self).code@,
            match validate(old(self).code@) {
                Err(e) => r == Err::<&StackMachine, ExecError>(ExecError::Syntax(e))
                    && final(self).sm.state() == old(self).sm.state(),
                Ok(()) => extends(final(self).sm.calls@, old(self).sm.calls@) && match run(
                    old(self).code@,
                    old(self).sm.state(),
                    MAX_DEPTH as nat,
                    replay(final(self).sm.calls@),
                ) {
                    Outcome::Done(s) => r is Ok && final(self).sm.state() == s,
                    Outcome::Fault(f) => r == Err::<&StackMachine, ExecError>(ExecError::Fault(f)),
                },
            },
    {
        let code = copy_code(&self.code, 0, self.code.len());
        assert(code@ =~= self.code@);
        match self.sm.execute(code) {
            Ok(()) => Ok(&self.sm),
            Err(e) => Err(e),
        }
    }
}

} // verus!
