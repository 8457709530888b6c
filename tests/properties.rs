use stackmachine::{
    ExecError, Fault, Function, Op, Output, StackMachine, SyntaxError,
};

fn run(code: Vec<(Op, Option<i32>)>) -> (StackMachine, Result<(), ExecError>) {
    let mut sm = StackMachine::new(256);
    let r = sm.execute(code);
    (sm, r)
}

#[test]
fn arithmetic_pops_two_and_pushes_one() {
    let (sm, r) = run(vec![
        (Op::Const, Some(9)),
        (Op::Const, Some(1)),
        (Op::Const, Some(1)),
        (Op::Add, None),
    ]);
    assert_eq!(r, Ok(()));
    assert_eq!(sm.stack, vec![9, 2]);
    let (sm, _) = run(vec![(Op::Const, Some(2)), (Op::Const, Some(3)), (Op::Mul, None)]);
    assert_eq!(sm.stack, vec![6]);
    let (sm, _) = run(vec![(Op::Const, Some(1)), (Op::Const, Some(1)), (Op::Sub, None)]);
    assert_eq!(sm.stack, vec![0]);
    let (sm, _) = run(vec![(Op::Const, Some(6)), (Op::Const, Some(3)), (Op::Div, None)]);
    assert_eq!(sm.stack, vec![2]);
}

#[test]
fn division_rounds_toward_zero() {
    let (sm, _) = run(vec![(Op::Const, Some(-7)), (Op::Const, Some(2)), (Op::Div, None)]);
    assert_eq!(sm.stack, vec![-3]);
}

#[test]
fn if_with_else_takes_one_branch() {
    let prog = |c: i32| {
        vec![
            (Op::Const, Some(c)),
            (Op::If, None),
            (Op::Const, Some(10)),
            (Op::Else, None),
            (Op::Const, Some(20)),
            (Op::EndIf, None),
            (Op::Const, Some(30)),
        ]
    };
    assert_eq!(run(prog(1)).0.stack, vec![10, 30]);
    assert_eq!(run(prog(0)).0.stack, vec![20, 30]);
    assert_eq!(run(prog(-4)).0.stack, vec![20, 30]);
}

#[test]
fn if_on_empty_stack_is_false() {
    let (sm, r) = run(vec![(Op::If, None), (Op::Const, Some(3)), (Op::EndIf, None)]);
    assert_eq!(r, Ok(()));
    assert_eq!(sm.stack, Vec::<i32>::new());
}

#[test]
fn not_of_negative_is_one() {
    let (sm, _) = run(vec![(Op::Const, Some(-5)), (Op::Not, None)]);
    assert_eq!(sm.stack, vec![1]);
}

#[test]
fn forked_child_reports_one_and_is_joined() {
    let (sm, r) = run(vec![(Op::Fork, None), (Op::Child, None), (Op::Print, None)]);
    assert_eq!(r, Ok(()));
    assert_eq!(sm.stack, vec![0]);
    assert_eq!(sm.output, vec![Output::Number(0), Output::Number(1)]);
    assert_eq!(sm.child_pid, 1);
}

#[test]
fn forked_child_gets_its_own_pid_and_stack_copy() {
    let (sm, _) = run(vec![
        (Op::Const, Some(7)),
        (Op::Fork, None),
        (Op::GetPid, None),
        (Op::Print, None),
        (Op::Debug, None),
    ]);
    assert_eq!(sm.stack, vec![7, 0]);
    assert_eq!(
        sm.output,
        vec![
            Output::Number(0),
            Output::Dump(0, vec![7, 0]),
            Output::Number(1),
            Output::Dump(1, vec![7, 1]),
        ]
    );
}

#[test]
fn call_by_index_runs_registered_body() {
    let mut sm = StackMachine::new(256);
    sm.function_table.push(Function::new(vec![(Op::Add, None)]));
    let r = sm.execute(vec![(Op::Const, Some(6)), (Op::Const, Some(3)), (Op::Call, Some(0))]);
    assert_eq!(r, Ok(()));
    assert_eq!(sm.stack, vec![9]);
}

#[test]
fn call_func_runs_body_and_rejects_unknown_index() {
    let mut sm = StackMachine::new(256);
    sm.function_table.push(Function::new(vec![(Op::Mul, None)]));
    sm.push(4);
    sm.push(5);
    assert_eq!(sm.call_func(0), Ok(()));
    assert_eq!(sm.stack, vec![20]);
    assert_eq!(sm.call_func(1), Err(Fault::UnknownFunction));
    assert_eq!(sm.stack, vec![20]);
}

#[test]
fn defined_function_matches_registered_one() {
    let call = vec![
        (Op::Const, Some(8)),
        (Op::Const, Some(3)),
        (Op::Const, Some(0)),
        (Op::Const, Some(110)),
        (Op::Const, Some(102)),
        (Op::Call, None),
    ];
    let mut defined = StackMachine::new(256);
    let mut program = vec![
        (Op::Const, Some(0)),
        (Op::Const, Some(110)),
        (Op::Const, Some(102)),
        (Op::Function, None),
        (Op::Sub, None),
        (Op::EndFunction, None),
    ];
    program.extend(call.iter().cloned());
    defined.execute(program).unwrap();

    let mut registered = StackMachine::new(256);
    registered.function_table.insert("fn".to_string(), vec![(Op::Sub, None)]);
    registered.execute(call).unwrap();

    assert_eq!(defined.stack, registered.stack);
    assert_eq!(defined.stack, vec![5]);
}

#[test]
fn unbalanced_if_is_rejected_before_running() {
    let mut sm = StackMachine::new(256);
    sm.push(42);
    let r = sm.execute(vec![(Op::Pop, None), (Op::If, None), (Op::Const, Some(1))]);
    assert_eq!(r, Err(ExecError::Syntax(SyntaxError::UnbalancedIf { ifs: 1, end_ifs: 0 })));
    assert_eq!(sm.stack, vec![42]);
}

#[test]
fn syntax_errors() {
    let sm = StackMachine::new(256);
    assert_eq!(
        sm.syntax_check(&vec![(Op::Function, None)]),
        Err(SyntaxError::UnbalancedFunction { functions: 1, end_functions: 0 })
    );
    assert_eq!(
        sm.syntax_check(&vec![(Op::If, None), (Op::Else, None), (Op::Else, None), (Op::EndIf, None)]),
        Err(SyntaxError::TooManyElse { elses: 2, ifs: 1 })
    );
    assert_eq!(sm.syntax_check(&vec![(Op::If, None), (Op::EndIf, None)]), Ok(()));
}

#[test]
fn runtime_faults() {
    assert_eq!(run(vec![(Op::Add, None)]).1, Err(ExecError::Fault(Fault::StackUnderflow)));
    assert_eq!(
        run(vec![(Op::Const, Some(1)), (Op::Const, Some(0)), (Op::Div, None)]).1,
        Err(ExecError::Fault(Fault::DivisionByZero))
    );
    assert_eq!(
        run(vec![(Op::Const, Some(i32::MAX)), (Op::Const, Some(1)), (Op::Add, None)]).1,
        Err(ExecError::Fault(Fault::Overflow))
    );
    assert_eq!(run(vec![(Op::Const, None)]).1, Err(ExecError::Fault(Fault::MissingOperand)));
    assert_eq!(run(vec![(Op::Call, Some(3))]).1, Err(ExecError::Fault(Fault::UnknownFunction)));
    assert_eq!(run(vec![(Op::CallExt, Some(0))]).1, Err(ExecError::Fault(Fault::UnknownExternal)));
    assert_eq!(
        run(vec![(Op::EndIf, None), (Op::If, None)]).1,
        Err(ExecError::Fault(Fault::StrayBlockEnd))
    );
    assert_eq!(run(vec![(Op::Noop, None)]).1, Err(ExecError::Fault(Fault::Unsupported(Op::Noop))));
    assert_eq!(run(vec![(Op::Pop, None)]).1, Err(ExecError::Fault(Fault::StackUnderflow)));
}

#[test]
fn unmatched_blocks_in_function_bodies() {
    let mut sm = StackMachine::new(256);
    sm.function_table.push(Function::new(vec![(Op::If, None)]));
    sm.function_table.push(Function::new(vec![(Op::Const, Some(0)), (Op::Function, None)]));
    assert_eq!(
        sm.execute(vec![(Op::Const, Some(1)), (Op::Call, Some(0))]),
        Err(ExecError::Fault(Fault::UnmatchedIf))
    );
    assert_eq!(sm.call_func(1), Err(Fault::UnmatchedFunction));
}

#[test]
fn endless_recursion_hits_depth_limit() {
    let mut sm = StackMachine::new(256);
    sm.function_table.push(Function::new(vec![(Op::Call, Some(0))]));
    assert_eq!(sm.execute(vec![(Op::Call, Some(0))]), Err(ExecError::Fault(Fault::DepthExceeded)));
}

#[test]
fn fork_without_pids_left_faults() {
    let mut sm = StackMachine::new(256);
    sm.child_pid = u16::MAX;
    assert_eq!(sm.execute(vec![(Op::Fork, None)]), Err(ExecError::Fault(Fault::PidExhausted)));
}

#[test]
fn return_ends_the_invocation() {
    let (sm, r) = run(vec![(Op::Const, Some(1)), (Op::Return, None), (Op::Const, Some(2))]);
    assert_eq!(r, Ok(()));
    assert_eq!(sm.stack, vec![1]);
}

#[test]
fn printstr_pops_to_terminator() {
    let (sm, _) = run(vec![
        (Op::Const, Some(5)),
        (Op::Const, Some(0)),
        (Op::Const, Some(105)),
        (Op::Const, Some(104)),
        (Op::PrintStr, None),
    ]);
    assert_eq!(sm.output, vec![Output::Text(vec![104, 105])]);
    assert_eq!(sm.stack, vec![5]);
}

#[test]
fn stack_helpers() {
    let mut sm = StackMachine::new(8);
    assert_eq!(sm.last(), None);
    assert_eq!(sm.pop(), None);
    sm.add(2, 3);
    sm.sub(2, 3);
    sm.mul(2, 3);
    sm.div(7, -2);
    assert_eq!(sm.stack, vec![5, -1, 6, -3]);
    assert_eq!(sm.last(), Some(-3));
}
