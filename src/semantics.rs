//! The meaning of a program, as spec functions over plain values.
//!
//! A run is described by mutually recursive functions: `run_from` walks one
//! invocation's instruction sequence, `step` gives the effect of a single
//! instruction, `invoke` starts a nested invocation (an `If` body, a called
//! function, a forked child) one level deeper, and `join` runs the children
//! that an invocation forked once its own instructions are exhausted. The
//! depth bound makes every run finite: going past it is a fault.
//!
//! Native callbacks belong to the host, so what they do is a parameter of a
//! run: `ext(k)` is the stack that the `k`-th callback of the process tree
//! leaves. The state records each callback made: the stack it was handed and
//! the stack it left.
use vstd::prelude::*;

use crate::error::{Fault, SyntaxError};
use crate::op::{Instruction, Op};

verus! {

/// Something a program printed, in the order it was produced.
pub enum Emitted {
    /// `Print`: the value on top of the stack.
    Number(i32),
    /// `PrintStr`: the character codes popped, in popping order.
    Text(Seq<i32>),
    /// `Debug`: the process identifier and the whole stack.
    Dump(u16, Seq<i32>),
}

/// The observable state of one machine.
pub struct State {
    pub stack: Seq<i32>,
    /// Internal functions: a name (character codes, possibly empty) and a body.
    pub functions: Seq<(Seq<i32>, Seq<Instruction>)>,
    /// The names of the native callbacks, by index.
    pub natives: Seq<Seq<i32>>,
    pub pid: u16,
    /// The last process identifier handed out in this process tree.
    pub last_pid: u16,
    /// Whether this machine is a forked child.
    pub child: bool,
    pub output: Seq<Emitted>,
    /// The native callbacks made so far in this process tree, in order: the
    /// stack each was handed and the stack it left.
    pub calls: Seq<(Seq<i32>, Seq<i32>)>,
}

/// Work forked by an invocation and not yet joined.
pub struct ForkRecord {
    pub pid: u16,
    pub stack: Seq<i32>,
    pub code: Seq<Instruction>,
}

/// How a run ends: with a state, or with a fault.
pub enum Outcome {
    Done(State),
    Fault(Fault),
}

/// What a single instruction leads to.
pub enum Step {
    /// Go on at the given index with the given state and pending forks.
    Next(int, State, Seq<ForkRecord>),
    /// `Return` or `EndFunction`: end this invocation.
    Stop(State),
    Fault(Fault),
}

/// The deepest nesting of invocations that `execute` allows.
pub const MAX_DEPTH: usize = 256;

impl State {
    pub open spec fn with_stack(self, stack: Seq<i32>) -> State {
        State { stack, ..self }
    }

    pub open spec fn emit(self, e: Emitted) -> State {
        State { output: self.output.push(e), ..self }
    }

    /// A native callback handed `handed`: the stack becomes what `ext` says
    /// the next callback leaves, and the call is recorded.
    pub open spec fn native_call(self, handed: Seq<i32>, ext: spec_fn(nat) -> Seq<i32>) -> State {
        let after = ext(self.calls.len());
        State { stack: after, calls: self.calls.push((handed, after)), ..self }
    }
}

/// A truth value as the machine encodes it.
pub open spec fn flag(b: bool) -> i32 {
    if b {
        1
    } else {
        0
    }
}

/// `b op a`, where `a` was on top of the stack and `b` below it.
pub open spec fn binary(op: Op, b: i32, a: i32) -> Result<i32, Fault> {
    match op {
        Op::Add => match b.checked_add(a) {
            Some(v) => Ok(v),
            None => Err(Fault::Overflow),
        },
        Op::Sub => match b.checked_sub(a) {
            Some(v) => Ok(v),
            None => Err(Fault::Overflow),
        },
        Op::Mul => match b.checked_mul(a) {
            Some(v) => Ok(v),
            None => Err(Fault::Overflow),
        },
        Op::Div => if a == 0 {
            Err(Fault::DivisionByZero)
        } else {
            match b.checked_div(a) {
                Some(v) => Ok(v),
                None => Err(Fault::Overflow),
            }
        },
        Op::Eq => Ok(flag(b == a)),
        Op::GT => Ok(flag(b > a)),
        Op::LT => Ok(flag(b < a)),
        Op::GTE => Ok(flag(b >= a)),
        _ => Ok(flag(b <= a)),
    }
}

/// The operations that pop two values and push one.
pub open spec fn is_binary(op: Op) -> bool {
    op == Op::Add || op == Op::Sub || op == Op::Mul || op == Op::Div || op == Op::Eq || op
        == Op::GT || op == Op::LT || op == Op::GTE || op == Op::LTE
}

/// Pops a zero-terminated name: the codes popped before the first zero, in
/// popping order, and the stack left once the zero is gone. `None` when the
/// stack holds no zero.
pub open spec fn pop_name(st: Seq<i32>) -> Option<(Seq<i32>, Seq<i32>)>
    decreases st.len(),
{
    if st.len() == 0 {
        None
    } else if st.last() == 0 {
        Some((seq![], st.drop_last()))
    } else {
        match pop_name(st.drop_last()) {
            Some((name, rest)) => Some((seq![st.last()].add(name), rest)),
            None => None,
        }
    }
}

/// Pops codes until a zero (consumed) or the bottom of the stack: the codes
/// popped, in popping order, and the stack that is left.
pub open spec fn pop_text(st: Seq<i32>) -> (Seq<i32>, Seq<i32>)
    decreases st.len(),
{
    if st.len() == 0 {
        (seq![], st)
    } else if st.last() == 0 {
        (seq![], st.drop_last())
    } else {
        let (text, rest) = pop_text(st.drop_last());
        (seq![st.last()].add(text), rest)
    }
}

/// The first index at or after `k` whose name is `name`.
pub open spec fn find_from(names: Seq<Seq<i32>>, name: Seq<i32>, k: int) -> Option<int>
    decreases names.len() - k,
{
    if k < 0 || k >= names.len() {
        None
    } else if names[k] == name {
        Some(k)
    } else {
        find_from(names, name, k + 1)
    }
}

/// The first index whose name is `name`.
pub open spec fn name_index(names: Seq<Seq<i32>>, name: Seq<i32>) -> Option<int> {
    find_from(names, name, 0)
}

/// The names of a function table, by index.
pub open spec fn names_of(fs: Seq<(Seq<i32>, Seq<Instruction>)>) -> Seq<Seq<i32>> {
    fs.map_values(|e: (Seq<i32>, Seq<Instruction>)| e.0)
}

/// Registers `body` under `name`: it replaces the body of the first function
/// of that name, or is added at the end.
pub open spec fn define(
    fs: Seq<(Seq<i32>, Seq<Instruction>)>,
    name: Seq<i32>,
    body: Seq<Instruction>,
) -> Seq<(Seq<i32>, Seq<Instruction>)> {
    match name_index(names_of(fs), name) {
        Some(k) => fs.update(k, (name, body)),
        None => fs.push((name, body)),
    }
}

/// Scans for the end of an `If` block from index `j`, `nest` blocks deep,
/// remembering the first `Else` of the outermost block. Gives that `Else`
/// and the matching `EndIf`.
pub open spec fn scan_block(code: Seq<Instruction>, j: int, nest: nat, else_at: Option<int>) -> Option<
    (Option<int>, int),
>
    decreases code.len() - j,
{
    if j < 0 || j >= code.len() {
        None
    } else {
        let op = code[j].0;
        if op == Op::If {
            scan_block(code, j + 1, nest + 1, else_at)
        } else if op == Op::EndIf {
            if nest <= 1 {
                Some((else_at, j))
            } else {
                scan_block(code, j + 1, (nest - 1) as nat, else_at)
            }
        } else if op == Op::Else && nest == 1 && else_at is None {
            scan_block(code, j + 1, nest, Some(j))
        } else {
            scan_block(code, j + 1, nest, else_at)
        }
    }
}

/// The `EndIf` that closes the `If` at `i`, with the first `Else` of that block.
pub open spec fn block_of(code: Seq<Instruction>, i: int) -> Option<(Option<int>, int)> {
    scan_block(code, i + 1, 1, None)
}

/// Scans for the `EndFunction` that closes a definition, from index `j`,
/// `nest` definitions deep.
pub open spec fn scan_function(code: Seq<Instruction>, j: int, nest: nat) -> Option<int>
    decreases code.len() - j,
{
    if j < 0 || j >= code.len() {
        None
    } else {
        let op = code[j].0;
        if op == Op::Function {
            scan_function(code, j + 1, nest + 1)
        } else if op == Op::EndFunction {
            if nest <= 1 {
                Some(j)
            } else {
                scan_function(code, j + 1, (nest - 1) as nat)
            }
        } else {
            scan_function(code, j + 1, nest)
        }
    }
}

/// The condition an `If` pops: false on an empty stack, else whether the top
/// is positive; with the stack left.
pub open spec fn condition(st: Seq<i32>) -> (bool, Seq<i32>) {
    if st.len() == 0 {
        (false, st)
    } else {
        (st.last() > 0, st.drop_last())
    }
}

/// The state a forked child starts from when its parent joins it in `s`.
pub open spec fn child_state(s: State, f: ForkRecord) -> State {
    State { stack: f.stack, pid: f.pid, child: true, ..s }
}

/// Goes on at `next` after a nested invocation ended in `o`.
pub open spec fn resume(o: Outcome, next: int, forks: Seq<ForkRecord>) -> Step {
    match o {
        Outcome::Done(s) => Step::Next(next, s, forks),
        Outcome::Fault(f) => Step::Fault(f),
    }
}

/// Runs `code` as a nested invocation, one level deeper than `depth`.
pub open spec fn invoke(code: Seq<Instruction>, s: State, depth: nat, ext: spec_fn(nat) -> Seq<i32>) -> Outcome
    decreases depth, 0nat, 0nat, 0nat,
{
    if depth == 0 {
        Outcome::Fault(Fault::DepthExceeded)
    } else {
        run_from(code, 0, s, seq![], (depth - 1) as nat, ext)
    }
}

/// Runs the pending forked children in order, each from the parent's state
/// at this point with its own stack copy; the parent keeps what they printed
/// the process identifiers they used and the callbacks they made, nothing
/// else.
pub open spec fn join(forks: Seq<ForkRecord>, s: State, depth: nat, ext: spec_fn(nat) -> Seq<i32>) -> Outcome
    decreases depth, 0nat, 0nat, forks.len(),
{
    if forks.len() == 0 {
        Outcome::Done(s)
    } else {
        match invoke(forks[0].code, child_state(s, forks[0]), depth, ext) {
            Outcome::Done(c) => join(
                forks.drop_first(),
                State { last_pid: c.last_pid, output: c.output, calls: c.calls, ..s },
                depth,
                ext,
            ),
            Outcome::Fault(f) => Outcome::Fault(f),
        }
    }
}

/// The effect of the instruction at `i`.
pub open spec fn step(
    code: Seq<Instruction>,
    i: int,
    s: State,
    forks: Seq<ForkRecord>,
    depth: nat,
    ext: spec_fn(nat) -> Seq<i32>,
) -> Step
    decreases depth, (code.len() - i) as nat, 1nat, 0nat,
{
    if i < 0 || i >= code.len() {
        Step::Stop(s)
    } else {
        let op = code[i].0;
        let arg = code[i].1;
        let st = s.stack;
        let n = st.len();
        if op == Op::Const || op == Op::Push {
            match arg {
                Some(v) => Step::Next(i + 1, s.with_stack(st.push(v)), forks),
                None => Step::Fault(Fault::MissingOperand),
            }
        } else if is_binary(op) {
            if n < 2 {
                Step::Fault(Fault::StackUnderflow)
            } else {
                match binary(op, st[n - 2], st[n - 1]) {
                    Ok(v) => Step::Next(i + 1, s.with_stack(st.subrange(0, n - 2).push(v)), forks),
                    Err(f) => Step::Fault(f),
                }
            }
        } else if op == Op::Not {
            if n < 1 {
                Step::Fault(Fault::StackUnderflow)
            } else {
                Step::Next(i + 1, s.with_stack(st.drop_last().push(flag(st.last() <= 0))), forks)
            }
        } else if op == Op::Pop {
            if n < 1 {
                Step::Fault(Fault::StackUnderflow)
            } else {
                Step::Next(i + 1, s.with_stack(st.drop_last()), forks)
            }
        } else if op == Op::Print {
            if n < 1 {
                Step::Fault(Fault::StackUnderflow)
            } else {
                Step::Next(i + 1, s.emit(Emitted::Number(st.last())), forks)
            }
        } else if op == Op::PrintStr {
            let (text, rest) = pop_text(st);
            Step::Next(i + 1, s.with_stack(rest).emit(Emitted::Text(text)), forks)
        } else if op == Op::Debug {
            Step::Next(i + 1, s.emit(Emitted::Dump(s.pid, st)), forks)
        } else if op == Op::GetPid {
            Step::Next(i + 1, s.with_stack(st.push(s.pid as i32)), forks)
        } else if op == Op::Child {
            Step::Next(i + 1, s.with_stack(st.push(flag(s.child))), forks)
        } else if op == Op::Fork {
            if s.last_pid == u16::MAX {
                Step::Fault(Fault::PidExhausted)
            } else {
                let pid = (s.last_pid + 1) as u16;
                Step::Next(
                    i + 1,
                    State { last_pid: pid, ..s },
                    forks.push(ForkRecord { pid, stack: st, code: code.subrange(i + 1, code.len() as int) }),
                )
            }
        } else if op == Op::If {
            let (cond, rest) = condition(st);
            let s1 = s.with_stack(rest);
            match block_of(code, i) {
                None => Step::Fault(Fault::UnmatchedIf),
                Some((else_at, end)) => if cond {
                    let stop = match else_at {
                        Some(e) => e,
                        None => end,
                    };
                    resume(invoke(code.subrange(i + 1, stop), s1, depth, ext), end + 1, forks)
                } else {
                    match else_at {
                        Some(e) => resume(invoke(code.subrange(e + 1, end), s1, depth, ext), end + 1, forks),
                        None => Step::Next(end + 1, s1, forks),
                    }
                },
            }
        } else if op == Op::Else || op == Op::EndIf {
            Step::Fault(Fault::StrayBlockEnd)
        } else if op == Op::Return || op == Op::EndFunction {
            Step::Stop(s)
        } else if op == Op::Function {
            match pop_name(st) {
                None => Step::Fault(Fault::StackUnderflow),
                Some((name, rest)) => match scan_function(code, i + 1, 1) {
                    None => Step::Fault(Fault::UnmatchedFunction),
                    Some(end) => Step::Next(
                        end + 1,
                        State {
                            stack: rest,
                            functions: define(s.functions, name, code.subrange(i + 1, end)),
                            ..s
                        },
                        forks,
                    ),
                },
            }
        } else if op == Op::Call {
            match arg {
                Some(k) => if 0 <= k < s.functions.len() {
                    resume(invoke(s.functions[k as int].1, s, depth, ext), i + 1, forks)
                } else {
                    Step::Fault(Fault::UnknownFunction)
                },
                None => match pop_name(st) {
                    None => Step::Fault(Fault::StackUnderflow),
                    Some((name, rest)) => match name_index(names_of(s.functions), name) {
                        Some(k) => resume(invoke(s.functions[k].1, s.with_stack(rest), depth, ext), i + 1, forks),
                        None => Step::Fault(Fault::UnknownFunction),
                    },
                },
            }
        } else if op == Op::CallExt {
            match arg {
                Some(k) => if 0 <= k < s.natives.len() {
                    Step::Next(i + 1, s.native_call(st, ext), forks)
                } else {
                    Step::Fault(Fault::UnknownExternal)
                },
                None => match pop_name(st) {
                    None => Step::Fault(Fault::StackUnderflow),
                    Some((name, rest)) => match name_index(s.natives, name) {
                        Some(k) => Step::Next(i + 1, s.native_call(rest, ext), forks),
                        None => Step::Fault(Fault::UnknownExternal),
                    },
                },
            }
        } else {
            Step::Fault(Fault::Unsupported(op))
        }
    }
}

/// Runs one invocation of `code` from index `i`, with the forks it made so
/// far. A step that went on to an index not after `i` would end the run;
/// `lemma_step_advances` shows that none does.
pub open spec fn run_from(
    code: Seq<Instruction>,
    i: int,
    s: State,
    forks: Seq<ForkRecord>,
    depth: nat,
    ext: spec_fn(nat) -> Seq<i32>,
) -> Outcome
    decreases depth, (code.len() - i) as nat, 2nat, 0nat,
{
    if i < 0 || i >= code.len() {
        join(forks, s, depth, ext)
    } else {
        match step(code, i, s, forks, depth, ext) {
            Step::Next(j, s2, f2) => if i < j <= code.len() {
                run_from(code, j, s2, f2, depth, ext)
            } else {
                Outcome::Fault(Fault::Unsupported(code[i].0))
            },
            Step::Stop(s2) => join(forks, s2, depth, ext),
            Step::Fault(f) => Outcome::Fault(f),
        }
    }
}

/// The end that `scan_block` finds lies at or after where it started.
pub proof fn lemma_scan_block_bounds(code: Seq<Instruction>, j: int, nest: nat, else_at: Option<int>)
    requires
        0 <= j,
    ensures
        scan_block(code, j, nest, else_at) matches Some((_, end)) ==> j <= end < code.len(),
    decreases code.len() - j,
{
    if j < code.len() {
        let op = code[j].0;
        if op == Op::If {
            lemma_scan_block_bounds(code, j + 1, nest + 1, else_at);
        } else if op == Op::EndIf {
            if nest > 1 {
                lemma_scan_block_bounds(code, j + 1, (nest - 1) as nat, else_at);
            }
        } else if op == Op::Else && nest == 1 && else_at is None {
            lemma_scan_block_bounds(code, j + 1, nest, Some(j));
        } else {
            lemma_scan_block_bounds(code, j + 1, nest, else_at);
        }
    }
}

/// The end that `scan_function` finds lies at or after where it started.
pub proof fn lemma_scan_function_bounds(code: Seq<Instruction>, j: int, nest: nat)
    requires
        0 <= j,
    ensures
        scan_function(code, j, nest) matches Some(end) ==> j <= end < code.len(),
    decreases code.len() - j,
{
    if j < code.len() {
        let op = code[j].0;
        if op == Op::Function {
            lemma_scan_function_bounds(code, j + 1, nest + 1);
        } else if op == Op::EndFunction {
            if nest > 1 {
                lemma_scan_function_bounds(code, j + 1, (nest - 1) as nat);
            }
        } else {
            lemma_scan_function_bounds(code, j + 1, nest);
        }
    }
}

/// Every instruction that lets the run go on moves it forward, and never
/// past the end of the sequence.
pub proof fn lemma_step_advances(
    code: Seq<Instruction>,
    i: int,
    s: State,
    forks: Seq<ForkRecord>,
    depth: nat,
    ext: spec_fn(nat) -> Seq<i32>,
)
    requires
        0 <= i < code.len(),
    ensures
        step(code, i, s, forks, depth, ext) matches Step::Next(j, _, _) ==> i < j <= code.len(),
{
    lemma_scan_block_bounds(code, i + 1, 1, None);
    lemma_scan_function_bounds(code, i + 1, 1);
}

/// Runs `code` as a fresh invocation at depth `depth`.
pub open spec fn run(code: Seq<Instruction>, s: State, depth: nat, ext: spec_fn(nat) -> Seq<i32>) -> Outcome {
    run_from(code, 0, s, seq![], depth, ext)
}

/// How many instructions of `code` carry `op`.
pub open spec fn count_op(code: Seq<Instruction>, op: Op) -> nat
    decreases code.len(),
{
    if code.len() == 0 {
        0
    } else {
        count_op(code.drop_last(), op) + if code.last().0 == op {
            1nat
        } else {
            0nat
        }
    }
}

/// The structural check made before a program runs: as many `If` as
/// `EndIf`, as many `Function` as `EndFunction`, no more `Else` than `If`.
/// It checks balance only, not nesting.
pub open spec fn validate(code: Seq<Instruction>) -> Result<(), SyntaxError> {
    let ifs = count_op(code, Op::If);
    let end_ifs = count_op(code, Op::EndIf);
    let functions = count_op(code, Op::Function);
    let end_functions = count_op(code, Op::EndFunction);
    let elses = count_op(code, Op::Else);
    if ifs != end_ifs {
        Err(SyntaxError::UnbalancedIf { ifs: ifs as usize, end_ifs: end_ifs as usize })
    } else if functions != end_functions {
        Err(
            SyntaxError::UnbalancedFunction {
                functions: functions as usize,
                end_functions: end_functions as usize,
            },
        )
    } else if elses > ifs {
        Err(SyntaxError::TooManyElse { elses: elses as usize, ifs: ifs as usize })
    } else {
        Ok(())
    }
}

/// Whether a call that returned `r` and left the machine in `s` ended as the
/// outcome `o` says.
pub open spec fn ends_as(o: Outcome, r: Result<(), Fault>, s: State) -> bool {
    match o {
        Outcome::Done(t) => r is Ok && s == t,
        Outcome::Fault(f) => r == Err::<(), Fault>(f),
    }
}

/// Whether `ext` gives, for each callback recorded in `calls`, the stack
/// that callback left.
pub open spec fn agrees(ext: spec_fn(nat) -> Seq<i32>, calls: Seq<(Seq<i32>, Seq<i32>)>) -> bool {
    forall|k: int| 0 <= k < calls.len() ==> ext(k as nat) == #[trigger] calls[k].1
}

/// The callbacks' results as `calls` records them.
pub open spec fn replay(calls: Seq<(Seq<i32>, Seq<i32>)>) -> spec_fn(nat) -> Seq<i32> {
    |k: nat| calls[k as int].1
}

/// Whether `later` begins with `earlier`.
pub open spec fn extends(later: Seq<(Seq<i32>, Seq<i32>)>, earlier: Seq<(Seq<i32>, Seq<i32>)>) -> bool {
    earlier.len() <= later.len() && forall|k: int| 0 <= k < earlier.len() ==> #[trigger] later[k] == earlier[k]
}

/// What agrees with a longer record agrees with its beginning.
pub proof fn lemma_agrees_extends(
    ext: spec_fn(nat) -> Seq<i32>,
    later: Seq<(Seq<i32>, Seq<i32>)>,
    earlier: Seq<(Seq<i32>, Seq<i32>)>,
)
    requires
        agrees(ext, later),
        extends(later, earlier),
    ensures
        agrees(ext, earlier),
{
    assert forall|k: int| 0 <= k < earlier.len() implies ext(k as nat) == #[trigger] earlier[k].1 by {
        assert(later[k] == earlier[k]);
    }
}

/// What agrees with a record gives the last recorded result at its index.
pub proof fn lemma_agrees_last(ext: spec_fn(nat) -> Seq<i32>, calls: Seq<(Seq<i32>, Seq<i32>)>)
    requires
        agrees(ext, calls),
        calls.len() > 0,
    ensures
        ext((calls.len() - 1) as nat) == calls.last().1,
{
    assert(calls[calls.len() - 1].1 == calls.last().1);
}

/// The record of a run agrees with its own replay.
pub proof fn lemma_replay_agrees(calls: Seq<(Seq<i32>, Seq<i32>)>)
    ensures
        agrees(replay(calls), calls),
{
}

} // verus!
