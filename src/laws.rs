//! Properties of the engine's semantics, proved over the spec functions that
//! the engine's contracts use.
use vstd::prelude::*;

use crate::error::SyntaxError;
use crate::op::{Instruction, Op};
use crate::semantics::{
    binary, block_of, child_state, condition, count_op, define, resume, flag, invoke, join, pop_name, run, run_from,
    scan_block, scan_function, step, validate, ForkRecord, Outcome, State, Step,
};

verus! {

/// The four arithmetic operations.
pub open spec fn is_arithmetic(op: Op) -> bool {
    op == Op::Add || op == Op::Sub || op == Op::Mul || op == Op::Div
}

/// A sequence holding no `Function` or `EndFunction`.
pub open spec fn no_definitions(t: Seq<Instruction>) -> bool {
    forall|k: int| 0 <= k < t.len() ==> #[trigger] t[k].0 != Op::Function && t[k].0 != Op::EndFunction
}

/// The block `If; t; EndIf`.
pub open spec fn if_block(t: Seq<Instruction>) -> Seq<Instruction> {
    seq![(Op::If, None::<i32>)] + t + seq![(Op::EndIf, None::<i32>)]
}

/// How a name sits on the stack to be popped: a zero, then the codes in
/// reverse order, so that the first code is on top.
pub open spec fn encode_name(n: Seq<i32>) -> Seq<i32>
    decreases n.len(),
{
    if n.len() == 0 {
        seq![0]
    } else {
        encode_name(n.drop_first()).push(n[0])
    }
}

/// A one-instruction program ends in the state its single step gives.
proof fn lemma_single(op: Op, arg: Option<i32>, s: State, depth: nat, ext: spec_fn(nat) -> Seq<i32>)
    ensures
        run(seq![(op, arg)], s, depth, ext) == match step(seq![(op, arg)], 0, s, seq![], depth, ext) {
            Step::Next(j, s2, f2) => if 0 < j <= 1 {
                join(f2, s2, depth, ext)
            } else {
                Outcome::Fault(crate::error::Fault::Unsupported(op))
            },
            Step::Stop(s2) => join(seq![], s2, depth, ext),
            Step::Fault(f) => Outcome::Fault(f),
        },
{
    let code = seq![(op, arg)];
    assert(code[0] == (op, arg));
    match step(code, 0, s, seq![], depth, ext) {
        Step::Next(j, s2, f2) => {
            if 0 < j <= 1 {
                assert(run_from(code, j, s2, f2, depth, ext) == join(f2, s2, depth, ext));
            }
        },
        _ => {},
    }
}

/// `Add`, `Sub`, `Mul` and `Div` pop exactly two values and push exactly
/// one: `b op a`, where `a` was on top.
pub proof fn lemma_arithmetic_pops_two_pushes_one(op: Op, s: State, depth: nat, ext: spec_fn(nat) -> Seq<i32>)
    requires
        is_arithmetic(op),
        s.stack.len() >= 2,
        binary(op, s.stack[s.stack.len() - 2], s.stack.last()) is Ok,
    ensures
        ({
            let n = s.stack.len();
            let v = binary(op, s.stack[n - 2], s.stack[n - 1])->Ok_0;
            &&& run(seq![(op, None)], s, depth, ext) == Outcome::Done(
                s.with_stack(s.stack.subrange(0, n - 2).push(v)),
            )
            &&& s.stack.subrange(0, n - 2).push(v).len() == n - 1
        }),
{
    lemma_single(op, None, s, depth, ext);
}

/// `Not` replaces the top of the stack by 1 when it is zero or negative and
/// by 0 otherwise.
pub proof fn lemma_not(s: State, depth: nat, ext: spec_fn(nat) -> Seq<i32>)
    requires
        s.stack.len() >= 1,
    ensures
        run(seq![(Op::Not, None)], s, depth, ext) == Outcome::Done(
            s.with_stack(s.stack.drop_last().push(flag(s.stack.last() <= 0))),
        ),
{
    lemma_single(Op::Not, None, s, depth, ext);
}

/// How a single instruction changes the count of open `If` blocks.
pub open spec fn delta(op: Op) -> int {
    if op == Op::If {
        1
    } else if op == Op::EndIf {
        -1
    } else {
        0
    }
}

/// The count of `If` blocks that `t` opens and leaves open.
pub open spec fn opens(t: Seq<Instruction>) -> int
    decreases t.len(),
{
    if t.len() == 0 {
        0
    } else {
        delta(t[0].0) + opens(t.drop_first())
    }
}

/// A well-nested sequence: every `EndIf` closes an `If` opened inside it,
/// every `If` is closed, and every `Else` lies inside a nested block.
pub open spec fn well_nested(t: Seq<Instruction>) -> bool {
    &&& opens(t) == 0
    &&& forall|k: int| 0 <= k <= t.len() ==> opens(#[trigger] t.subrange(0, k)) >= 0
    &&& forall|k: int|
        0 <= k < t.len() && #[trigger] t[k].0 == Op::Else ==> opens(t.subrange(0, k)) > 0
}

/// `opens` of a segment, split after its first instruction.
proof fn lemma_opens_step(code: Seq<Instruction>, j: int, k: int)
    requires
        0 <= j < k <= code.len(),
    ensures
        opens(code.subrange(j, k)) == delta(code[j].0) + opens(code.subrange(j + 1, k)),
{
    assert(code.subrange(j, k).drop_first() =~= code.subrange(j + 1, k));
}

/// Scanning a segment that never closes the block being scanned and holds
/// no `Else` of it arrives at the segment's end at the block's own level.
proof fn lemma_scan_segment(code: Seq<Instruction>, j: int, m: int, n: nat, e: Option<int>)
    requires
        0 <= j <= m <= code.len(),
        n >= 1,
        forall|k: int| j <= k <= m ==> n + opens(#[trigger] code.subrange(j, k)) >= 1,
        forall|k: int|
            j <= k < m && #[trigger] code[k].0 == Op::Else ==> n + opens(code.subrange(j, k)) > 1,
        n + opens(code.subrange(j, m)) == 1,
    ensures
        scan_block(code, j, n, e) == scan_block(code, m, 1, e),
    decreases m - j,
{
    if j < m {
        let op = code[j].0;
        assert(code.subrange(j, j) =~= Seq::<Instruction>::empty());
        lemma_opens_step(code, j, j + 1);
        assert(code.subrange(j + 1, j + 1) =~= Seq::<Instruction>::empty());
        let n2 = n + delta(op);
        assert forall|k: int| j + 1 <= k <= m implies n2 + opens(#[trigger] code.subrange(j + 1, k)) >= 1 by {
            lemma_opens_step(code, j, k);
        }
        assert forall|k: int|
            j + 1 <= k < m && #[trigger] code[k].0 == Op::Else implies n2 + opens(code.subrange(j + 1, k)) > 1 by {
            lemma_opens_step(code, j, k);
        }
        lemma_opens_step(code, j, m);
        if op == Op::Else {
            assert(n + opens(code.subrange(j, j)) > 1);
        }
        if op == Op::EndIf {
            assert(n + opens(code.subrange(j, j + 1)) >= 1);
        }
        lemma_scan_segment(code, j + 1, m, n2 as nat, e);
    } else {
        assert(code.subrange(j, j) =~= Seq::<Instruction>::empty());
    }
}

/// A well-nested sequence at offset `j` of `code` is a segment that the
/// scan of its enclosing block crosses at that block's level.
proof fn lemma_scan_nested(code: Seq<Instruction>, t: Seq<Instruction>, j: int, e: Option<int>)
    requires
        well_nested(t),
        0 <= j,
        j + t.len() <= code.len(),
        code.subrange(j, j + t.len()) == t,
    ensures
        scan_block(code, j, 1, e) == scan_block(code, j + t.len(), 1, e),
{
    let m = j + t.len();
    assert forall|k: int| j <= k <= m implies 1 + opens(#[trigger] code.subrange(j, k)) >= 1 by {
        assert(code.subrange(j, k) =~= t.subrange(0, k - j));
    }
    assert forall|k: int| j <= k < m && #[trigger] code[k].0 == Op::Else implies 1 + opens(
        code.subrange(j, k),
    ) > 1 by {
        assert(code.subrange(j, k) =~= t.subrange(0, k - j));
        assert(t[k - j] == code[k]);
    }
    lemma_scan_segment(code, j, m, 1, e);
}

/// The block `If; t; Else; e; EndIf`.
pub open spec fn if_else_block(t: Seq<Instruction>, e: Seq<Instruction>) -> Seq<Instruction> {
    seq![(Op::If, None::<i32>)] + t + seq![(Op::Else, None::<i32>)] + e + seq![(Op::EndIf, None::<i32>)]
}

/// The block of `If; t; EndIf` ends at its last instruction and has no
/// `Else` of its own.
proof fn lemma_block_of_if(t: Seq<Instruction>)
    requires
        well_nested(t),
    ensures
        block_of(if_block(t), 0) == Some((None::<int>, t.len() as int + 1)),
        if_block(t).subrange(1, t.len() as int + 1) == t,
        if_block(t)[0] == (Op::If, None::<i32>),
{
    let code = if_block(t);
    assert(code.subrange(1, 1 + t.len() as int) =~= t);
    lemma_scan_nested(code, t, 1, None);
    assert(code[t.len() as int + 1] == (Op::EndIf, None::<i32>));
}

/// The block of `If; t; Else; e; EndIf` has its `Else` after `t` and ends
/// at its last instruction.
proof fn lemma_block_of_if_else(t: Seq<Instruction>, e: Seq<Instruction>)
    requires
        well_nested(t),
        well_nested(e),
    ensures
        block_of(if_else_block(t, e), 0) == Some(
            (Some(t.len() as int + 1), t.len() as int + e.len() as int + 2),
        ),
        if_else_block(t, e).subrange(1, t.len() as int + 1) == t,
        if_else_block(t, e).subrange(t.len() as int + 2, t.len() as int + e.len() as int + 2) == e,
        if_else_block(t, e)[0] == (Op::If, None::<i32>),
{
    let code = if_else_block(t, e);
    let p = t.len() as int + 1;
    let m = p + 1 + e.len();
    assert(code.subrange(1, p) =~= t);
    assert(code.subrange(p + 1, m) =~= e);
    lemma_scan_nested(code, t, 1, None);
    assert(code[p] == (Op::Else, None::<i32>));
    lemma_scan_nested(code, e, p + 1, Some(p));
    assert(code[m] == (Op::EndIf, None::<i32>));
}

/// An `If` whose popped condition is positive runs only its then-branch:
/// `If; t; EndIf` ends as the nested run of `t` on the stack without the
/// condition.
pub proof fn lemma_if_true_runs_then_branch(t: Seq<Instruction>, s: State, depth: nat, ext: spec_fn(nat) -> Seq<i32>)
    requires
        well_nested(t),
        s.stack.len() > 0,
        s.stack.last() > 0,
    ensures
        run(if_block(t), s, depth, ext) == invoke(t, s.with_stack(s.stack.drop_last()), depth, ext),
{
    let code = if_block(t);
    lemma_block_of_if(t);
    let s1 = s.with_stack(s.stack.drop_last());
    let m = t.len() as int + 1;
    assert(condition(s.stack) == (true, s.stack.drop_last()));
    match invoke(t, s1, depth, ext) {
        Outcome::Done(s2) => {
            assert(step(code, 0, s, seq![], depth, ext) == Step::Next(m + 1, s2, Seq::<ForkRecord>::empty()));
            assert(run_from(code, m + 1, s2, seq![], depth, ext) == join(Seq::<ForkRecord>::empty(), s2, depth, ext));
        },
        _ => {},
    }
}

/// An `If` whose popped condition is zero or negative, or that finds the
/// stack empty, runs nothing when the block has no `Else`: `If; t; EndIf`
/// only pops the condition.
pub proof fn lemma_if_false_runs_nothing(t: Seq<Instruction>, s: State, depth: nat, ext: spec_fn(nat) -> Seq<i32>)
    requires
        well_nested(t),
        s.stack.len() == 0 || s.stack.last() <= 0,
    ensures
        run(if_block(t), s, depth, ext) == Outcome::Done(s.with_stack(condition(s.stack).1)),
{
    let code = if_block(t);
    lemma_block_of_if(t);
    let s1 = s.with_stack(condition(s.stack).1);
    let m = t.len() as int + 1;
    assert(step(code, 0, s, seq![], depth, ext) == Step::Next(m + 1, s1, Seq::<ForkRecord>::empty()));
    assert(run_from(code, m + 1, s1, seq![], depth, ext) == join(Seq::<ForkRecord>::empty(), s1, depth, ext));
}

/// `If; t; Else; e; EndIf` runs exactly one branch, as a nested invocation
/// on the stack without the condition: `t` when the condition is positive,
/// `e` when it is not (an empty stack counts as false).
pub proof fn lemma_if_else_runs_one_branch(t: Seq<Instruction>, e: Seq<Instruction>, s: State, depth: nat, ext: spec_fn(nat) -> Seq<i32>)
    requires
        well_nested(t),
        well_nested(e),
    ensures
        ({
            let (cond, rest) = condition(s.stack);
            run(if_else_block(t, e), s, depth, ext) == invoke(if cond { t } else { e }, s.with_stack(rest), depth, ext)
        }),
{
    let code = if_else_block(t, e);
    lemma_block_of_if_else(t, e);
    let (cond, rest) = condition(s.stack);
    let s1 = s.with_stack(rest);
    let p = t.len() as int + 1;
    let m = t.len() as int + e.len() as int + 2;
    let body = if cond { t } else { e };
    assert(code[0].0 == Op::If);
    assert(block_of(code, 0) == Some((Some(p), m)));
    if cond {
        assert(code.subrange(1, p) == t);
        assert(step(code, 0, s, seq![], depth, ext) == resume(invoke(t, s1, depth, ext), m + 1, seq![]));
    } else {
        assert(code.subrange(p + 1, m) == e);
        assert(step(code, 0, s, seq![], depth, ext) == resume(invoke(e, s1, depth, ext), m + 1, seq![]));
    }
    match invoke(body, s1, depth, ext) {
        Outcome::Done(s2) => {
            assert(run_from(code, m + 1, s2, seq![], depth, ext) == join(Seq::<ForkRecord>::empty(), s2, depth, ext));
        },
        _ => {},
    }
}

/// `Call` with an index runs that function's body, as a nested invocation,
/// on the live stack.
pub proof fn lemma_call_runs_body(k: i32, s: State, depth: nat, ext: spec_fn(nat) -> Seq<i32>)
    requires
        0 <= k < s.functions.len(),
    ensures
        run(seq![(Op::Call, Some(k))], s, depth, ext) == invoke(s.functions[k as int].1, s, depth, ext),
{
    lemma_single(Op::Call, Some(k), s, depth, ext);
}

/// After `Fork; Child` the parent has pushed 0 (it is not a forked child)
/// and the child it forked, joined before the run ends, pushed 1 on its own
/// copy of the stack; the parent's stack shows nothing of the child.
pub proof fn lemma_fork_then_child(s: State, depth: nat, ext: spec_fn(nat) -> Seq<i32>)
    requires
        !s.child,
        s.last_pid < u16::MAX,
        depth > 0,
    ensures
        ({
            let pid = (s.last_pid + 1) as u16;
            let f = ForkRecord { pid, stack: s.stack, code: seq![(Op::Child, None)] };
            &&& run(seq![(Op::Fork, None), (Op::Child, None)], s, depth, ext) == Outcome::Done(
                State { stack: s.stack.push(0), last_pid: pid, ..s },
            )
            &&& invoke(f.code, child_state(State { last_pid: pid, ..s }, f), depth, ext) == Outcome::Done(
                State { stack: s.stack.push(1), pid, child: true, last_pid: pid, ..s },
            )
        }),
{
    let code = seq![(Op::Fork, None::<i32>), (Op::Child, None::<i32>)];
    let pid = (s.last_pid + 1) as u16;
    assert(code.subrange(1, 2) =~= seq![(Op::Child, None::<i32>)]);
    let f = ForkRecord { pid, stack: s.stack, code: seq![(Op::Child, None)] };
    let s1 = State { last_pid: pid, ..s };
    let forks = seq![f];
    assert(step(code, 0, s, seq![], depth, ext) == Step::Next(1, s1, Seq::<ForkRecord>::empty().push(f)));
    assert(Seq::<ForkRecord>::empty().push(f) =~= forks);
    let s2 = s1.with_stack(s.stack.push(0));
    assert(step(code, 1, s1, forks, depth, ext) == Step::Next(2, s2, forks));
    assert(run_from(code, 2, s2, forks, depth, ext) == join(forks, s2, depth, ext));
    let cs = child_state(s1, f);
    let cdone = cs.with_stack(s.stack.push(1));
    lemma_single(Op::Child, None, cs, (depth - 1) as nat, ext);
    assert(invoke(f.code, cs, depth, ext) == Outcome::Done(cdone));
    assert(forks.drop_first() =~= Seq::<ForkRecord>::empty());
    assert(forks[0] == f);
    assert(child_state(s2, f) == cs);
    assert(State { last_pid: cdone.last_pid, output: cdone.output, ..s2 } == s2);
    assert(join(forks, s2, depth, ext) == join(Seq::<ForkRecord>::empty(), s2, depth, ext));
    assert(run_from(code, 1, s1, forks, depth, ext) == run_from(code, 2, s2, forks, depth, ext));
    assert(run_from(code, 0, s, seq![], depth, ext) == run_from(code, 1, s1, forks, depth, ext));
    assert(s2 == State { stack: s.stack.push(0), last_pid: pid, ..s });
    assert(cdone == State { stack: s.stack.push(1), pid, child: true, last_pid: pid, ..s });
}

/// Popping an encoded name gives the name back and the stack beneath it.
proof fn lemma_pop_encoded(base: Seq<i32>, n: Seq<i32>)
    requires
        forall|k: int| 0 <= k < n.len() ==> #[trigger] n[k] != 0,
    ensures
        pop_name(base + encode_name(n)) == Some((n, base)),
    decreases n.len(),
{
    if n.len() == 0 {
        let st = base + seq![0i32];
        assert(st.drop_last() =~= base);
        assert(st.last() == 0);
    } else {
        let rest = n.drop_first();
        assert forall|k: int| 0 <= k < rest.len() implies #[trigger] rest[k] != 0 by {
            assert(rest[k] == n[k + 1]);
        }
        lemma_pop_encoded(base, rest);
        let st = base + encode_name(n);
        assert(st =~= (base + encode_name(rest)).push(n[0]));
        assert(st.drop_last() =~= base + encode_name(rest));
        assert(seq![n[0]] + rest =~= n);
    }
}

/// A body without definitions, then `EndFunction`, closes the definition.
proof fn lemma_scan_function_plain(code: Seq<Instruction>, j: int, m: int)
    requires
        0 <= j <= m < code.len(),
        code[m].0 == Op::EndFunction,
        forall|k: int| j <= k < m ==> #[trigger] code[k].0 != Op::Function && code[k].0 != Op::EndFunction,
    ensures
        scan_function(code, j, 1) == Some(m),
    decreases m - j,
{
    if j < m {
        assert(code[j].0 != Op::Function && code[j].0 != Op::EndFunction);
        lemma_scan_function_plain(code, j + 1, m);
    }
}

/// Defining a function at run time registers it as inserting it into the
/// table beforehand would: `Function; b; EndFunction`, with the name encoded
/// on the stack, ends in the state where the name is popped and `b` is
/// registered under it. Whatever runs next, a call of it included, then
/// sees the same machine as after registering it by hand.
pub proof fn lemma_define_registers(n: Seq<i32>, b: Seq<Instruction>, base: Seq<i32>, s: State, depth: nat, ext: spec_fn(nat) -> Seq<i32>)
    requires
        forall|k: int| 0 <= k < n.len() ==> #[trigger] n[k] != 0,
        no_definitions(b),
        s.stack == base + encode_name(n),
    ensures
        run(seq![(Op::Function, None::<i32>)] + b + seq![(Op::EndFunction, None::<i32>)], s, depth, ext)
            == Outcome::Done(State { stack: base, functions: define(s.functions, n, b), ..s }),
{
    let code = seq![(Op::Function, None::<i32>)] + b + seq![(Op::EndFunction, None::<i32>)];
    let m = b.len() as int + 1;
    lemma_pop_encoded(base, n);
    assert forall|k: int| 1 <= k < m implies #[trigger] code[k].0 != Op::Function && code[k].0 != Op::EndFunction by {
        assert(code[k] == b[k - 1]);
    }
    lemma_scan_function_plain(code, 1, m);
    assert(code.subrange(1, m) =~= b);
    let s1 = State { stack: base, functions: define(s.functions, n, b), ..s };
    assert(code[0] == (Op::Function, None::<i32>));
    assert(step(code, 0, s, seq![], depth, ext) == Step::Next(m + 1, s1, Seq::<ForkRecord>::empty()));
    assert(run_from(code, m + 1, s1, seq![], depth, ext) == join(Seq::<ForkRecord>::empty(), s1, depth, ext));
}

/// A program with unequal counts of `If` and `EndIf` is rejected by the
/// structural check, which `execute` runs before any instruction.
pub proof fn lemma_unbalanced_if_rejected(code: Seq<Instruction>)
    requires
        count_op(code, Op::If) != count_op(code, Op::EndIf),
    ensures
        validate(code) == Err::<(), SyntaxError>(
            SyntaxError::UnbalancedIf {
                ifs: count_op(code, Op::If) as usize,
                end_ifs: count_op(code, Op::EndIf) as usize,
            },
        ),
{
}

} // verus!
