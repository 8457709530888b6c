//! The execution engine: the machine's state, the dispatch loop, block
//! resolution, calls, and forked children joined before an invocation ends.
use vstd::prelude::*;

use crate::error::{ExecError, Fault, SyntaxError};
use crate::op::{copy_code, Instruction, Op};
use crate::registry::{FunctionTable, NativeTable};
use crate::text::copy_codes;
use crate::semantics::{
    agrees, binary, block_of, child_state, count_op, ends_as, extends, invoke, is_binary, join,
    lemma_agrees_extends, lemma_agrees_last, lemma_replay_agrees, pop_name, pop_text, replay, run, run_from, scan_block,
    scan_function, step, validate, Emitted, ForkRecord, Outcome, State, Step, MAX_DEPTH,
};

verus! {

/// Something the machine printed; the host decides where it goes.
#[derive(Clone, Debug, PartialEq, Eq)]
pub enum Output {
    /// `Print`: the value on top of the stack.
    Number(i32),
    /// `PrintStr`: the character codes popped, in popping order.
    Text(Vec<i32>),
    /// `Debug`: the process identifier and the whole stack.
    Dump(u16, Vec<i32>),
}

impl View for Output {
    type V = Emitted;

    open spec fn view(&self) -> Emitted {
        match self {
            Output::Number(v) => Emitted::Number(*v),
            Output::Text(t) => Emitted::Text(t@),
            Output::Dump(p, st) => Emitted::Dump(*p, st@),
        }
    }
}

/// The views of a sequence of outputs.
pub open spec fn outputs_view(o: Seq<Output>) -> Seq<Emitted> {
    o.map_values(|x: Output| x@)
}

/// One machine: its operand stack, scratch memory, registries, process
/// identity and what it printed.
pub struct StackMachine {
    pub stack: Vec<i32>,
    pub memory: Vec<u8>,
    pub ext_functions: NativeTable,
    pub function_table: FunctionTable,
    pub pid: u16,
    /// The last process identifier handed out in this process tree.
    pub child_pid: u16,
    pub child: bool,
    pub output: Vec<Output>,
    /// The native callbacks made so far in this process tree: the stack each
    /// was handed and the stack it left.
    pub calls: Ghost<Seq<(Seq<i32>, Seq<i32>)>>,
}

/// A forked child not yet joined.
struct Pending {
    pid: u16,
    stack: Vec<i32>,
    code: Vec<Instruction>,
}

spec fn pending_view(p: Pending) -> ForkRecord {
    ForkRecord { pid: p.pid, stack: p.stack@, code: p.code@ }
}

spec fn pendings_view(ps: Seq<Pending>) -> Seq<ForkRecord> {
    ps.map_values(|p: Pending| pending_view(p))
}

/// Where the dispatch loop goes after one instruction.
enum Control {
    Next(usize),
    Stop,
}

/// Whether an instruction that returned `r`, left the machine in `s` and the
/// pending forks as `f` (they were `f0`) did what `st` says.
spec fn stepped(st: Step, r: Result<Control, Fault>, s: State, f: Seq<ForkRecord>, f0: Seq<ForkRecord>) -> bool {
    match st {
        Step::Next(j, s2, f2) => r matches Ok(Control::Next(k)) && k == j && s == s2 && f == f2,
        Step::Stop(s2) => r == Ok::<Control, Fault>(Control::Stop) && s == s2 && f == f0,
        Step::Fault(e) => r == Err::<Control, Fault>(e),
    }
}

spec fn opt_int(o: Option<usize>) -> Option<int> {
    match o {
        Some(x) => Some(x as int),
        None => None,
    }
}

/// `b op a` for a two-operand operation.
fn binary_exec(op: Op, b: i32, a: i32) -> (r: Result<i32, Fault>)
    requires
        is_binary(op),
    ensures
        r == binary(op, b, a),
{
    match op {
        Op::Add => match b.checked_add(a) {
            Some(v) => Ok(v),
            None => Err(Fault::Overflow),
        },
        Op::Sub => match b.checked_sub(a) {
            Some(v) => Ok(v),
            None => Err(Fault::Overflow),
        },
        Op::Mul => match b.checked_mul(a) {
            Some(v) => Ok(v),
            None => Err(Fault::Overflow),
        },
        Op::Div => if a == 0 {
            Err(Fault::DivisionByZero)
        } else {
            match b.checked_div(a) {
                Some(v) => Ok(v),
                None => Err(Fault::Overflow),
            }
        },
        Op::Eq => Ok(if b == a { 1 } else { 0 }),
        Op::GT => Ok(if b > a { 1 } else { 0 }),
        Op::LT => Ok(if b < a { 1 } else { 0 }),
        Op::GTE => Ok(if b >= a { 1 } else { 0 }),
        _ => Ok(if b <= a { 1 } else { 0 }),
    }
}

/// Division rounded toward zero fits in 32 bits but for `MIN / -1`.
proof fn lemma_div_fits(a: i32, b: i32)
    requires
        b != 0,
        !(a == i32::MIN && b == -1),
    ensures
        a.checked_div(b) is Some,
{
    let x = a as int;
    let d = b as int;
    if x > 0 && d > 0 {
        assert(0 <= x / d <= x) by (nonlinear_arith)
            requires
                x > 0,
                d > 0,
        ;
    } else if x < 0 && d < 0 {
        assert(0 <= (x * -1) / (d * -1) <= x * -1) by (nonlinear_arith)
            requires
                x < 0,
                d < 0,
        ;
        if x == i32::MIN {
            assert((x * -1) / (d * -1) <= i32::MAX) by (nonlinear_arith)
                requires
                    x == i32::MIN,
                    d < -1,
            ;
        }
    } else if x < 0 {
        assert(0 <= (x * -1) / d <= x * -1) by (nonlinear_arith)
            requires
                x < 0,
                d > 0,
        ;
    } else if x > 0 {
        assert(0 <= x / (d * -1) <= x) by (nonlinear_arith)
            requires
                x > 0,
                d < 0,
        ;
    }
}

/// The first `Else` and the matching `EndIf` of the `If` at `i`.
fn find_block(code: &Vec<Instruction>, i: usize) -> (r: Option<(Option<usize>, usize)>)
    requires
        i < code.len(),
    ensures
        match r {
            Some((e, end)) => block_of(code@, i as int) == Some((opt_int(e), end as int)) && i < end
                < code.len() && (e matches Some(x) ==> i < x < end),
            None => block_of(code@, i as int) is None,
        },
{
    let mut j: usize = i + 1;
    let mut nest: usize = 1;
    let mut else_at: Option<usize> = None;
    while j < code.len()
        invariant
            i < j <= code.len(),
            1 <= nest <= j - i,
            block_of(code@, i as int) == scan_block(code@, j as int, nest as nat, opt_int(else_at)),
            else_at matches Some(x) ==> i < x < j,
        decreases code.len() - j,
    {
        let op = code[j].0;
        if op == Op::If {
            nest = nest + 1;
        } else if op == Op::EndIf {
            if nest <= 1 {
                return Some((else_at, j));
            }
            nest = nest - 1;
        } else if op == Op::Else && nest == 1 && else_at.is_none() {
            else_at = Some(j);
        }
        j = j + 1;
    }
    None
}

/// The `EndFunction` that closes the definition opened at `i`.
fn find_function_end(code: &Vec<Instruction>, i: usize) -> (r: Option<usize>)
    requires
        i < code.len(),
    ensures
        match r {
            Some(end) => scan_function(code@, i + 1, 1) == Some(end as int) && i < end < code.len(),
            None => scan_function(code@, i + 1, 1) is None,
        },
{
    let mut j: usize = i + 1;
    let mut nest: usize = 1;
    while j < code.len()
        invariant
            i < j <= code.len(),
            1 <= nest <= j - i,
            scan_function(code@, i + 1, 1) == scan_function(code@, j as int, nest as nat),
        decreases code.len() - j,
    {
        let op = code[j].0;
        if op == Op::Function {
            nest = nest + 1;
        } else if op == Op::EndFunction {
            if nest <= 1 {
                return Some(j);
            }
            nest = nest - 1;
        }
        j = j + 1;
    }
    None
}

impl StackMachine {
    /// The machine as the semantics sees it.
    pub open spec fn state(&self) -> State {
        State {
            stack: self.stack@,
            functions: self.function_table@,
            natives: self.ext_functions@,
            pid: self.pid,
            last_pid: self.child_pid,
            child: self.child,
            output: outputs_view(self.output@),
            calls: self.calls@,
        }
    }

    /// A root machine with an empty stack and registries and `memsize` bytes
    /// of scratch memory reserved.
    pub fn new(memsize: u32) -> (r: StackMachine)
        ensures
            r.state() == (State {
                stack: Seq::empty(),
                functions: Seq::empty(),
                natives: Seq::empty(),
                pid: 0,
                last_pid: 0,
                child: false,
                output: Seq::empty(),
                calls: Seq::empty(),
            }),
            r.memory@.len() == 0,
    {
        let r = StackMachine {
            stack: Vec::new(),
            memory: Vec::with_capacity(memsize as usize),
            ext_functions: NativeTable::new(),
            function_table: FunctionTable::new(),
            pid: 0,
            child_pid: 0,
            child: false,
            output: Vec::new(),
            calls: Ghost(Seq::empty()),
        };
        assert(r.stack@ =~= Seq::<i32>::empty());
        assert(outputs_view(r.output@) =~= Seq::<Emitted>::empty());
        r
    }

    /// The value on top of the stack.
    pub fn last(&self) -> (r: Option<i32>)
        ensures
            r == (if self.stack@.len() == 0 {
                None
            } else {
                Some(self.stack@.last())
            }),
    {
        if self.stack.len() == 0 {
            None
        } else {
            Some(self.stack[self.stack.len() - 1])
        }
    }

    /// Removes and returns the value on top of the stack.
    pub fn pop(&mut self) -> (r: Option<i32>)
        ensures
            old(self).stack@.len() == 0 ==> r is None && final(self).state() == old(self).state(),
            old(self).stack@.len() > 0 ==> r == Some(old(self).stack@.last()) && final(self).state()
                == old(self).state().with_stack(old(self).stack@.drop_last()),
    {
        self.stack.pop()
    }

    pub fn push(&mut self, item: i32)
        ensures
            final(self).state() == old(self).state().with_stack(old(self).stack@.push(item)),
    {
        self.stack.push(item)
    }

    /// Pushes `a + b`.
    pub fn add(&mut self, a: i32, b: i32)
        requires
            i32::MIN <= a + b <= i32::MAX,
        ensures
            final(self).state() == old(self).state().with_stack(old(self).stack@.push((a + b) as i32)),
    {
        self.push(a + b);
    }

    /// Pushes `a - b`.
    pub fn sub(&mut self, a: i32, b: i32)
        requires
            i32::MIN <= a - b <= i32::MAX,
        ensures
            final(self).state() == old(self).state().with_stack(old(self).stack@.push((a - b) as i32)),
    {
        self.push(a - b);
    }

    /// Pushes `a * b`.
    pub fn mul(&mut self, a: i32, b: i32)
        requires
            i32::MIN <= a * b <= i32::MAX,
        ensures
            final(self).state() == old(self).state().with_stack(old(self).stack@.push((a * b) as i32)),
    {
        self.push(a * b);
    }

    /// Pushes `a / b`, rounded toward zero.
    pub fn div(&mut self, a: i32, b: i32)
        requires
            b != 0,
            !(a == i32::MIN && b == -1),
        ensures
            a.checked_div(b) is Some,
            final(self).state() == old(self).state().with_stack(
                old(self).stack@.push(a.checked_div(b).unwrap()),
            ),
    {
        proof {
            lemma_div_fits(a, b);
        }
        match a.checked_div(b) {
            Some(v) => self.push(v),
            None => {},
        }
    }
}

impl StackMachine {
    /// Appends `o` to what the machine printed.
    fn emit(&mut self, o: Output)
        ensures
            final(self).state() == old(self).state().emit(o@),
            final(self).ext_functions@ == old(self).ext_functions@,
    {
        let ghost before = self.output@;
        let ghost v = o@;
        self.output.push(o);
        assert(outputs_view(self.output@) =~= outputs_view(before).push(v));
    }

    /// Pops a zero-terminated name off the stack.
    fn pop_name_exec(&mut self) -> (r: Option<Vec<i32>>)
        ensures
            match pop_name(old(self).stack@) {
                Some((name, rest)) => r matches Some(n) && n@ == name && final(self).state() == old(
                    self,
                ).state().with_stack(rest),
                None => r is None,
            },
            final(self).state() == old(self).state().with_stack(final(self).stack@),
            final(self).ext_functions@ == old(self).ext_functions@,
    {
        let ghost orig = self.stack@;
        let ghost s0 = self.state();
        let mut name: Vec<i32> = Vec::new();
        proof {
            match pop_name(orig) {
                Some((n, rest)) => {
                    assert(name@ + n =~= n);
                },
                None => {},
            }
        }
        loop
            invariant
                s0 == old(self).state(),
                orig == old(self).stack@,
                self.state() == s0.with_stack(self.stack@),
                s0.natives == self.ext_functions@,
                pop_name(orig) == match pop_name(self.stack@) {
                    Some((n, rest)) => Some((name@ + n, rest)),
                    None => None::<(Seq<i32>, Seq<i32>)>,
                },
            decreases self.stack@.len(),
        {
            let ghost before = self.stack@;
            match self.stack.pop() {
                None => {
                    return None;
                },
                Some(v) => {
                    if v == 0 {
                        assert(name@ + Seq::<i32>::empty() =~= name@);
                        return Some(name);
                    }
                    proof {
                        assert(self.stack@ == before.drop_last());
                        match pop_name(self.stack@) {
                            Some((n, rest)) => {
                                assert(name@ + (seq![v] + n) =~= name@.push(v) + n);
                            },
                            None => {},
                        }
                    }
                    name.push(v);
                },
            }
        }
    }

    /// Pops character codes up to a zero or the bottom of the stack.
    fn pop_text_exec(&mut self) -> (r: Vec<i32>)
        ensures
            (r@, final(self).stack@) == pop_text(old(self).stack@),
            final(self).state() == old(self).state().with_stack(final(self).stack@),
            final(self).ext_functions@ == old(self).ext_functions@,
    {
        let ghost orig = self.stack@;
        let ghost s0 = self.state();
        let mut text: Vec<i32> = Vec::new();
        proof {
            assert(text@ + pop_text(orig).0 =~= pop_text(orig).0);
        }
        loop
            invariant
                s0 == old(self).state(),
                orig == old(self).stack@,
                self.state() == s0.with_stack(self.stack@),
                s0.natives == self.ext_functions@,
                pop_text(orig) == (text@ + pop_text(self.stack@).0, pop_text(self.stack@).1),
            decreases self.stack@.len(),
        {
            let ghost before = self.stack@;
            match self.stack.pop() {
                None => {
                    assert(text@ + Seq::<i32>::empty() =~= text@);
                    return text;
                },
                Some(v) => {
                    if v == 0 {
                        assert(text@ + Seq::<i32>::empty() =~= text@);
                        return text;
                    }
                    proof {
                        assert(self.stack@ == before.drop_last());
                        let t = pop_text(self.stack@).0;
                        assert(text@ + (seq![v] + t) =~= text@.push(v) + t);
                    }
                    text.push(v);
                },
            }
        }
    }

    /// Runs `code` as a nested invocation, one level deeper.
    fn invoke(&mut self, code: &Vec<Instruction>, depth: usize) -> (r: Result<(), Fault>)
        ensures
            extends(final(self).calls@, old(self).calls@),
            forall|ext: spec_fn(nat) -> Seq<i32>| #[trigger]
                agrees(ext, final(self).calls@) ==> ends_as(
                    invoke(code@, old(self).state(), depth as nat, ext),
                    r,
                    final(self).state(),
                ),
            final(self).ext_functions@ == old(self).ext_functions@,
        decreases depth, 0nat,
    {
        if depth == 0 {
            Err(Fault::DepthExceeded)
        } else {
            self.run(code, depth - 1)
        }
    }

    /// An `If` at `i`: runs the branch that the popped condition selects.
    fn exec_if(&mut self, code: &Vec<Instruction>, i: usize, depth: usize, Ghost(fv): Ghost<Seq<ForkRecord>>) -> (r: Result<Control, Fault>)
        requires
            i < code.len(),
            code@[i as int].0 == Op::If,
        ensures
            extends(final(self).calls@, old(self).calls@),
            forall|ext: spec_fn(nat) -> Seq<i32>| #[trigger]
                agrees(ext, final(self).calls@) ==> stepped(
                    step(code@, i as int, old(self).state(), fv, depth as nat, ext),
                    r,
                    final(self).state(),
                    fv,
                    fv,
                ),
            r matches Ok(Control::Next(j)) ==> i < j <= code.len(),
            !(r matches Ok(Control::Stop)),
            final(self).ext_functions@ == old(self).ext_functions@,
        decreases depth, 1nat,
    {
        let cond = match self.stack.pop() {
            Some(v) => v > 0,
            None => false,
        };
        match find_block(code, i) {
            None => Err(Fault::UnmatchedIf),
            Some((else_at, end)) => {
                if cond {
                    let stop = match else_at {
                        Some(e) => e,
                        None => end,
                    };
                    let body = copy_code(code, i + 1, stop);
                    match self.invoke(&body, depth) {
                        Ok(()) => Ok(Control::Next(end + 1)),
                        Err(f) => Err(f),
                    }
                } else {
                    match else_at {
                        Some(e) => {
                            let body = copy_code(code, e + 1, end);
                            match self.invoke(&body, depth) {
                                Ok(()) => Ok(Control::Next(end + 1)),
                                Err(f) => Err(f),
                            }
                        },
                        None => Ok(Control::Next(end + 1)),
                    }
                }
            },
        }
    }

    /// A `Function` at `i`: registers the body up to its `EndFunction` under
    /// the name popped off the stack.
    fn exec_function(&mut self, code: &Vec<Instruction>, i: usize, depth: usize, Ghost(fv): Ghost<Seq<ForkRecord>>) -> (r: Result<Control, Fault>)
        requires
            i < code.len(),
            code@[i as int].0 == Op::Function,
        ensures
            extends(final(self).calls@, old(self).calls@),
            forall|ext: spec_fn(nat) -> Seq<i32>| #[trigger]
                agrees(ext, final(self).calls@) ==> stepped(
                    step(code@, i as int, old(self).state(), fv, depth as nat, ext),
                    r,
                    final(self).state(),
                    fv,
                    fv,
                ),
            r matches Ok(Control::Next(j)) ==> i < j <= code.len(),
            !(r matches Ok(Control::Stop)),
            final(self).ext_functions@ == old(self).ext_functions@,
    {
        match self.pop_name_exec() {
            None => Err(Fault::StackUnderflow),
            Some(name) => match find_function_end(code, i) {
                None => Err(Fault::UnmatchedFunction),
                Some(end) => {
                    let body = copy_code(code, i + 1, end);
                    self.function_table.define(name, body);
                    Ok(Control::Next(end + 1))
                },
            },
        }
    }

    /// A `Call` at `i`: runs an internal function, chosen by the operand's
    /// index or by a name popped off the stack, on the live stack.
    fn exec_call(&mut self, code: &Vec<Instruction>, i: usize, depth: usize, Ghost(fv): Ghost<Seq<ForkRecord>>) -> (r: Result<Control, Fault>)
        requires
            i < code.len(),
            code@[i as int].0 == Op::Call,
        ensures
            extends(final(self).calls@, old(self).calls@),
            forall|ext: spec_fn(nat) -> Seq<i32>| #[trigger]
                agrees(ext, final(self).calls@) ==> stepped(
                    step(code@, i as int, old(self).state(), fv, depth as nat, ext),
                    r,
                    final(self).state(),
                    fv,
                    fv,
                ),
            r matches Ok(Control::Next(j)) ==> i < j <= code.len(),
            !(r matches Ok(Control::Stop)),
            final(self).ext_functions@ == old(self).ext_functions@,
        decreases depth, 1nat,
    {
        match code[i].1 {
            Some(k) => {
                if k >= 0 && (k as usize) < self.function_table.len() {
                    let body = self.function_table.body(k as usize);
                    match self.invoke(&body, depth) {
                        Ok(()) => Ok(Control::Next(i + 1)),
                        Err(f) => Err(f),
                    }
                } else {
                    Err(Fault::UnknownFunction)
                }
            },
            None => match self.pop_name_exec() {
                None => Err(Fault::StackUnderflow),
                Some(name) => match self.function_table.find(&name) {
                    Some(k) => {
                        let body = self.function_table.body(k);
                        match self.invoke(&body, depth) {
                            Ok(()) => Ok(Control::Next(i + 1)),
                            Err(f) => Err(f),
                        }
                    },
                    None => Err(Fault::UnknownFunction),
                },
            },
        }
    }

    /// A `CallExt` at `i`: hands the stack to a native callback, chosen by
    /// the operand's index or by a name popped off the stack.
    fn exec_call_ext(&mut self, code: &Vec<Instruction>, i: usize, depth: usize, Ghost(fv): Ghost<Seq<ForkRecord>>) -> (r: Result<Control, Fault>)
        requires
            i < code.len(),
            code@[i as int].0 == Op::CallExt,
        ensures
            extends(final(self).calls@, old(self).calls@),
            forall|ext: spec_fn(nat) -> Seq<i32>| #[trigger]
                agrees(ext, final(self).calls@) ==> stepped(
                    step(code@, i as int, old(self).state(), fv, depth as nat, ext),
                    r,
                    final(self).state(),
                    fv,
                    fv,
                ),
            r matches Ok(Control::Next(j)) ==> i < j <= code.len(),
            !(r matches Ok(Control::Stop)),
            final(self).ext_functions@ == old(self).ext_functions@,
    {
        match code[i].1 {
            Some(k) => {
                if k >= 0 && (k as usize) < self.ext_functions.len() {
                    let ghost handed = self.stack@;
                    self.ext_functions.call(k as usize, &mut self.stack);
                    self.calls = Ghost(self.calls@.push((handed, self.stack@)));
                    assert forall|ext: spec_fn(nat) -> Seq<i32>| #[trigger] agrees(ext, self.calls@) implies ext(
                        old(self).calls@.len(),
                    ) == self.stack@ by {
                        lemma_agrees_last(ext, self.calls@);
                    }
                    Ok(Control::Next(i + 1))
                } else {
                    Err(Fault::UnknownExternal)
                }
            },
            None => match self.pop_name_exec() {
                None => Err(Fault::StackUnderflow),
                Some(name) => match self.ext_functions.find(&name) {
                    Some(k) => {
                        let ghost handed = self.stack@;
                        self.ext_functions.call(k, &mut self.stack);
                        self.calls = Ghost(self.calls@.push((handed, self.stack@)));
                        assert forall|ext: spec_fn(nat) -> Seq<i32>| #[trigger] agrees(ext, self.calls@) implies ext(
                            old(self).calls@.len(),
                        ) == self.stack@ by {
                            lemma_agrees_last(ext, self.calls@);
                        }
                        Ok(Control::Next(i + 1))
                    },
                    None => Err(Fault::UnknownExternal),
                },
            },
        }
    }
}

impl StackMachine {
    /// Executes the instruction at `i`.
    fn step_at(&mut self, code: &Vec<Instruction>, i: usize, forks: &mut Vec<Pending>, depth: usize) -> (r: Result<Control, Fault>)
        requires
            i < code.len(),
        ensures
            extends(final(self).calls@, old(self).calls@),
            forall|ext: spec_fn(nat) -> Seq<i32>| #[trigger]
                agrees(ext, final(self).calls@) ==> stepped(
                    step(code@, i as int, old(self).state(), pendings_view(old(forks)@), depth as nat, ext),
                    r,
                    final(self).state(),
                    pendings_view(final(forks)@),
                    pendings_view(old(forks)@),
                ),
            r matches Ok(Control::Next(j)) ==> i < j <= code.len(),
            final(self).ext_functions@ == old(self).ext_functions@,
        decreases depth, 2nat,
    {
        let op = code[i].0;
        let arg = code[i].1;
        let ghost fv = pendings_view(forks@);
        match op {
            Op::Const | Op::Push => match arg {
                Some(v) => {
                    self.stack.push(v);
                    Ok(Control::Next(i + 1))
                },
                None => Err(Fault::MissingOperand),
            },
            Op::Add | Op::Sub | Op::Mul | Op::Div | Op::Eq | Op::GT | Op::LT | Op::GTE | Op::LTE => {
                if self.stack.len() < 2 {
                    Err(Fault::StackUnderflow)
                } else {
                    let ghost st = self.stack@;
                    let a = self.stack.pop().unwrap();
                    let b = self.stack.pop().unwrap();
                    match binary_exec(op, b, a) {
                        Ok(v) => {
                            self.stack.push(v);
                            assert(self.stack@ =~= st.subrange(0, st.len() - 2).push(v));
                            Ok(Control::Next(i + 1))
                        },
                        Err(f) => Err(f),
                    }
                }
            },
            Op::Not => match self.stack.pop() {
                Some(a) => {
                    self.stack.push(if a <= 0 { 1 } else { 0 });
                    Ok(Control::Next(i + 1))
                },
                None => Err(Fault::StackUnderflow),
            },
            Op::Pop => match self.stack.pop() {
                Some(_) => Ok(Control::Next(i + 1)),
                None => Err(Fault::StackUnderflow),
            },
            Op::Print => match self.last() {
                Some(v) => {
                    self.emit(Output::Number(v));
                    Ok(Control::Next(i + 1))
                },
                None => Err(Fault::StackUnderflow),
            },
            Op::PrintStr => {
                let text = self.pop_text_exec();
                self.emit(Output::Text(text));
                Ok(Control::Next(i + 1))
            },
            Op::Debug => {
                let st = copy_codes(&self.stack);
                let pid = self.pid;
                self.emit(Output::Dump(pid, st));
                Ok(Control::Next(i + 1))
            },
            Op::GetPid => {
                let pid = self.pid as i32;
                self.stack.push(pid);
                Ok(Control::Next(i + 1))
            },
            Op::Child => {
                let c = if self.child { 1 } else { 0 };
                self.stack.push(c);
                Ok(Control::Next(i + 1))
            },
            Op::Fork => {
                if self.child_pid == u16::MAX {
                    Err(Fault::PidExhausted)
                } else {
                    let pid = self.child_pid + 1;
                    let st = copy_codes(&self.stack);
                    let rest = copy_code(code, i + 1, code.len());
                    self.child_pid = pid;
                    let ghost before = forks@;
                    let p = Pending { pid, stack: st, code: rest };
                    let ghost pv = pending_view(p);
                    forks.push(p);
                    assert(pendings_view(forks@) =~= pendings_view(before).push(pv));
                    Ok(Control::Next(i + 1))
                }
            },
            Op::If => self.exec_if(code, i, depth, Ghost(fv)),
            Op::Else | Op::EndIf => Err(Fault::StrayBlockEnd),
            Op::Return | Op::EndFunction => Ok(Control::Stop),
            Op::Function => self.exec_function(code, i, depth, Ghost(fv)),
            Op::Call => self.exec_call(code, i, depth, Ghost(fv)),
            Op::CallExt => self.exec_call_ext(code, i, depth, Ghost(fv)),
            _ => Err(Fault::Unsupported(op)),
        }
    }

    /// Runs one invocation of `code`, then joins the children it forked.
    fn run(&mut self, code: &Vec<Instruction>, depth: usize) -> (r: Result<(), Fault>)
        ensures
            extends(final(self).calls@, old(self).calls@),
            forall|ext: spec_fn(nat) -> Seq<i32>| #[trigger]
                agrees(ext, final(self).calls@) ==> ends_as(
                    run(code@, old(self).state(), depth as nat, ext),
                    r,
                    final(self).state(),
                ),
            final(self).ext_functions@ == old(self).ext_functions@,
        decreases depth, 3nat,
    {
        let ghost s0 = self.state();
        let ghost natives = self.ext_functions@;
        let mut forks: Vec<Pending> = Vec::new();
        assert(pendings_view(forks@) =~= Seq::<ForkRecord>::empty());
        let mut i: usize = 0;
        let mut stopped = false;
        while i < code.len() && !stopped
            invariant
                s0 == old(self).state(),
                natives == old(self).ext_functions@,
                i <= code.len(),
                self.ext_functions@ == natives,
                extends(self.calls@, s0.calls),
                forall|ext: spec_fn(nat) -> Seq<i32>| #[trigger]
                    agrees(ext, self.calls@) ==> if stopped {
                        run(code@, s0, depth as nat, ext) == join(
                            pendings_view(forks@),
                            self.state(),
                            depth as nat,
                            ext,
                        )
                    } else {
                        run(code@, s0, depth as nat, ext) == run_from(
                            code@,
                            i as int,
                            self.state(),
                            pendings_view(forks@),
                            depth as nat,
                            ext,
                        )
                    },
            decreases (code.len() - i) as int + if stopped {
                0int
            } else {
                1int
            },
        {
            let ghost s_before = self.state();
            let ghost f_before = pendings_view(forks@);
            let r = self.step_at(code, i, &mut forks, depth);
            assert forall|ext: spec_fn(nat) -> Seq<i32>| #[trigger] agrees(ext, self.calls@) implies run(
                code@,
                s0,
                depth as nat,
                ext,
            ) == run_from(code@, i as int, s_before, f_before, depth as nat, ext) by {
                lemma_agrees_extends(ext, self.calls@, s_before.calls);
            }
            match r {
                Err(f) => {
                    return Err(f);
                },
                Ok(Control::Next(j)) => {
                    i = j;
                },
                Ok(Control::Stop) => {
                    stopped = true;
                },
            }
        }
        let ghost s_mid = self.state();
        let ghost f_mid = pendings_view(forks@);
        let r = self.join(forks, depth);
        assert forall|ext: spec_fn(nat) -> Seq<i32>| #[trigger] agrees(ext, self.calls@) implies run(
            code@,
            s0,
            depth as nat,
            ext,
        ) == join(f_mid, s_mid, depth as nat, ext) by {
            lemma_agrees_extends(ext, self.calls@, s_mid.calls);
        }
        r
    }

    /// Runs the forked children in order, each on a fresh machine with its
    /// own stack copy and a copy of the function table; keeps what they
    /// printed and the process identifiers they used. A child shares no
    /// mutable state with its parent, so running it here, once the parent's
    /// own instructions are done, is one schedule of the concurrent run:
    /// every child has completed before the invocation that forked it ends.
    fn join(&mut self, forks: Vec<Pending>, depth: usize) -> (r: Result<(), Fault>)
        ensures
            extends(final(self).calls@, old(self).calls@),
            forall|ext: spec_fn(nat) -> Seq<i32>| #[trigger]
                agrees(ext, final(self).calls@) ==> ends_as(
                    join(pendings_view(forks@), old(self).state(), depth as nat, ext),
                    r,
                    final(self).state(),
                ),
            final(self).ext_functions@ == old(self).ext_functions@,
        decreases depth, 2nat,
    {
        let ghost fv = pendings_view(forks@);
        let ghost s0 = self.state();
        let ghost natives = self.ext_functions@;
        let mut k: usize = 0;
        assert(fv.subrange(0, fv.len() as int) =~= fv);
        while k < forks.len()
            invariant
                s0 == old(self).state(),
                natives == old(self).ext_functions@,
                k <= forks.len(),
                fv == pendings_view(forks@),
                self.ext_functions@ == natives,
                extends(self.calls@, s0.calls),
                forall|ext: spec_fn(nat) -> Seq<i32>| #[trigger]
                    agrees(ext, self.calls@) ==> join(fv, s0, depth as nat, ext) == join(
                        fv.subrange(k as int, fv.len() as int),
                        self.state(),
                        depth as nat,
                        ext,
                    ),
            decreases forks.len() - k,
        {
            let ghost s_before = self.state();
            let p = &forks[k];
            let stack = copy_codes(&p.stack);
            let code = copy_code(&p.code, 0, p.code.len());
            assert(code@ =~= p.code@);
            let mut table = NativeTable::new();
            std::mem::swap(&mut table, &mut self.ext_functions);
            let mut out: Vec<Output> = Vec::new();
            std::mem::swap(&mut out, &mut self.output);
            let mut child = StackMachine {
                stack,
                memory: Vec::new(),
                ext_functions: table,
                function_table: self.function_table.duplicate(),
                pid: p.pid,
                child_pid: self.child_pid,
                child: true,
                output: out,
                calls: self.calls,
            };
            assert(child.state() == child_state(s_before, fv[k as int]));
            let r = child.invoke(&code, depth);
            std::mem::swap(&mut self.ext_functions, &mut child.ext_functions);
            std::mem::swap(&mut self.output, &mut child.output);
            self.child_pid = child.child_pid;
            self.calls = child.calls;
            proof {
                let rest = fv.subrange(k as int, fv.len() as int);
                assert(rest.drop_first() =~= fv.subrange(k + 1, fv.len() as int));
                assert(rest[0] == fv[k as int]);
            }
            assert forall|ext: spec_fn(nat) -> Seq<i32>| #[trigger] agrees(ext, self.calls@) implies join(
                fv,
                s0,
                depth as nat,
                ext,
            ) == join(fv.subrange(k as int, fv.len() as int), s_before, depth as nat, ext) by {
                lemma_agrees_extends(ext, self.calls@, s_before.calls);
            }
            match r {
                Err(f) => {
                    return Err(f);
                },
                Ok(()) => {},
            }
            k = k + 1;
        }
        assert(fv.subrange(k as int, fv.len() as int) =~= Seq::<ForkRecord>::empty());
        Ok(())
    }
}

impl StackMachine {
    /// The structural check run before a program: balance of `If`/`EndIf`
    /// and `Function`/`EndFunction`, and no more `Else` than `If`. It does
    /// not check nesting.
    pub fn syntax_check(&self, code: &Vec<Instruction>) -> (r: Result<(), SyntaxError>)
        ensures
            r == validate(code@),
    {
        let mut ifs: usize = 0;
        let mut end_ifs: usize = 0;
        let mut elses: usize = 0;
        let mut functions: usize = 0;
        let mut end_functions: usize = 0;
        let mut k: usize = 0;
        while k < code.len()
            invariant
                k <= code.len(),
                ifs == count_op(code@.subrange(0, k as int), Op::If),
                end_ifs == count_op(code@.subrange(0, k as int), Op::EndIf),
                elses == count_op(code@.subrange(0, k as int), Op::Else),
                functions == count_op(code@.subrange(0, k as int), Op::Function),
                end_functions == count_op(code@.subrange(0, k as int), Op::EndFunction),
                ifs <= k && end_ifs <= k && elses <= k && functions <= k && end_functions <= k,
            decreases code.len() - k,
        {
            let op = code[k].0;
            assert(code@.subrange(0, k + 1).drop_last() =~= code@.subrange(0, k as int));
            if op == Op::If {
                ifs = ifs + 1;
            } else if op == Op::EndIf {
                end_ifs = end_ifs + 1;
            } else if op == Op::Else {
                elses = elses + 1;
            } else if op == Op::Function {
                functions = functions + 1;
            } else if op == Op::EndFunction {
                end_functions = end_functions + 1;
            }
            k = k + 1;
        }
        assert(code@.subrange(0, k as int) =~= code@);
        if ifs != end_ifs {
            return Err(SyntaxError::UnbalancedIf { ifs, end_ifs });
        }
        if functions != end_functions {
            return Err(SyntaxError::UnbalancedFunction { functions, end_functions });
        }
        if elses > ifs {
            return Err(SyntaxError::TooManyElse { elses, ifs });
        }
        Ok(())
    }

    /// Checks `code` and runs it on this machine. A structural error is
    /// reported before any instruction runs, and leaves the machine as it
    /// was. Otherwise the program runs, and the children it forks are joined
    /// before this returns; a runtime fault ends the run. The native
    /// callbacks it makes are recorded in `calls`, and the run is the one the
    /// semantics gives when each callback leaves the stack recorded there.
    pub fn execute(&mut self, code: Vec<Instruction>) -> (r: Result<(), ExecError>)
        ensures
            match validate(code@) {
                Err(e) => r == Err::<(), ExecError>(ExecError::Syntax(e)) && final(self).state() == old(
                    self,
                ).state(),
                Ok(()) => extends(final(self).calls@, old(self).calls@) && match run(
                    code@,
                    old(self).state(),
                    MAX_DEPTH as nat,
                    replay(final(self).calls@),
                ) {
                    Outcome::Done(s) => r is Ok && final(self).state() == s,
                    Outcome::Fault(f) => r == Err::<(), ExecError>(ExecError::Fault(f)),
                },
            },
            final(self).ext_functions@ == old(self).ext_functions@,
    {
        match self.syntax_check(&code) {
            Err(e) => Err(ExecError::Syntax(e)),
            Ok(()) => {
                let r = self.run(&code, MAX_DEPTH);
                proof {
                    lemma_replay_agrees(self.calls@);
                }
                match r {
                    Ok(()) => Ok(()),
                    Err(f) => Err(ExecError::Fault(f)),
                }
            },
        }
    }

    /// Runs the internal function at index `fn_id` on the live stack.
    pub fn call_func(&mut self, fn_id: u8) -> (r: Result<(), Fault>)
        ensures
            fn_id < old(self).function_table@.len() ==> extends(final(self).calls@, old(self).calls@)
                && ends_as(
                invoke(
                    old(self).function_table@[fn_id as int].1,
                    old(self).state(),
                    MAX_DEPTH as nat,
                    replay(final(self).calls@),
                ),
                r,
                final(self).state(),
            ),
            fn_id >= old(self).function_table@.len() ==> r == Err::<(), Fault>(Fault::UnknownFunction)
                && final(self).state() == old(self).state(),
            final(self).ext_functions@ == old(self).ext_functions@,
    {
        if (fn_id as usize) < self.function_table.len() {
            let body = self.function_table.body(fn_id as usize);
            let r = self.invoke(&body, MAX_DEPTH);
            proof {
                lemma_replay_agrees(self.calls@);
            }
            r
        } else {
            Err(Fault::UnknownFunction)
        }
    }

    /// Hands the stack to the native callback at index `fn_id`. Whatever it
    /// does to the stack stands, and the call is recorded; nothing else
    /// changes.
    pub fn call_func_ext(&mut self, fn_id: u8) -> (r: Result<(), Fault>)
        ensures
            fn_id < old(self).ext_functions@.len() ==> r is Ok && final(self).state() == (State {
                stack: final(self).stack@,
                calls: old(self).calls@.push((old(self).stack@, final(self).stack@)),
                ..old(self).state()
            }),
            fn_id >= old(self).ext_functions@.len() ==> r == Err::<(), Fault>(Fault::UnknownExternal)
                && final(self).state() == old(self).state(),
    {
        if (fn_id as usize) < self.ext_functions.len() {
            let ghost handed = self.stack@;
            self.ext_functions.call(fn_id as usize, &mut self.stack);
            self.calls = Ghost(self.calls@.push((handed, self.stack@)));
            Ok(())
        } else {
            Err(Fault::UnknownExternal)
        }
    }
}

} // verus!
