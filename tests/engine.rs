use stackmachine::{Native, NativeFunction, Op, StackMachine};

fn sum_n(stack: &mut Vec<i32>) {
    if let Some(mut nargs) = stack.pop() {
        let mut total = 0;
        while nargs > 0 {
            match stack.pop() {
                Some(v) => {
                    total += v;
                }
                None => {
                    stack.push(-1);
                    return;
                }
            }
            nargs -= 1;
        }
        stack.push(total);
    } else {
        stack.push(-1);
    }
}

struct SumN;

impl NativeFunction for SumN {
    fn call(&self, stack: &mut Vec<i32>) {
        sum_n(stack)
    }
}

#[test]
pub fn test_add() {
    let mut sm = StackMachine::new(2u32.pow(8));
    sm.execute(vec![
        (Op::Const, Some(1i32)),
        (Op::Const, Some(1i32)),
        (Op::Add, None),
    ])
    .unwrap();

    assert_eq!(Some(2), sm.pop());
}

#[test]
pub fn test_sub() {
    let mut sm = StackMachine::new(2u32.pow(8));
    sm.execute(vec![
        (Op::Const, Some(1i32)),
        (Op::Const, Some(1i32)),
        (Op::Sub, None),
    ])
    .unwrap();

    assert_eq!(Some(0), sm.pop());
}

#[test]
pub fn test_mul() {
    let mut sm = StackMachine::new(2u32.pow(8));
    sm.execute(vec![
        (Op::Const, Some(2i32)),
        (Op::Const, Some(3i32)),
        (Op::Mul, None),
    ])
    .unwrap();

    assert_eq!(Some(6), sm.pop());
}

#[test]
pub fn test_div() {
    let mut sm = StackMachine::new(2u32.pow(8));
    sm.execute(vec![
        (Op::Const, Some(6i32)),
        (Op::Const, Some(3i32)),
        (Op::Div, None),
    ])
    .unwrap();

    // The value below the top is divided by the top: 6 / 3.
    assert_eq!(Some(2), sm.pop());
}

#[test]
pub fn test_call() {
    let mut sm = StackMachine::new(2u32.pow(8));

    sm.function_table
        .insert("fn".to_string(), vec![(Op::Add, None)]);

    sm.execute(vec![
        (Op::Const, Some(3i32)),
        (Op::Const, Some(2i32)),
        (Op::Const, Some(0i32)), // Char codes for 'fn'
        (Op::Const, Some(110i32)),
        (Op::Const, Some(102i32)),
        (Op::Call, None),
    ])
    .unwrap();

    assert_eq!(Some(3 + 2), sm.pop());
}

#[test]
fn test_fork() {
    let mut sm = StackMachine::new(2u32.pow(8));

    sm.execute(vec![
        (Op::Const, Some(6i32)),
        (Op::Const, Some(3i32)),
        (Op::Fork, None),
        (Op::Child, None),
    ])
    .unwrap();

    assert_eq!(Some(0), sm.pop());
}

#[test]
fn test_fork_branch() {
    let mut sm = StackMachine::new(2u32.pow(8));

    sm.execute(vec![
        (Op::Fork, None),
        (Op::Child, None),
        (Op::If, None),
        (Op::Const, Some(1)),
        (Op::Else, None),
        (Op::Const, Some(2)), // the parent takes this branch
        (Op::EndIf, None),
    ])
    .unwrap();

    assert_eq!(Some(2), sm.pop());
}

#[test]
fn test_if_true() {
    let mut sm = StackMachine::new(2u32.pow(8));

    sm.execute(vec![
        (Op::Const, Some(1i32)),
        (Op::If, None),
        (Op::Const, Some(3i32)),
        (Op::EndIf, None),
    ])
    .unwrap();

    assert_eq!(3, sm.pop().unwrap());
}

#[test]
fn test_if_false() {
    let mut sm = StackMachine::new(2u32.pow(8));

    sm.execute(vec![
        (Op::Const, Some(0i32)),
        (Op::If, None),
        (Op::Const, Some(3i32)),
        (Op::EndIf, None),
    ])
    .unwrap();

    assert_eq!(0, sm.stack.len());
}

#[test]
fn test_if_true_nested() {
    let mut sm = StackMachine::new(2u32.pow(8));

    sm.execute(vec![
        (Op::Const, Some(1i32)),
        (Op::If, None),
        (Op::Const, Some(1i32)),
        (Op::If, None),
        (Op::Const, Some(7i32)),
        (Op::EndIf, None),
        (Op::EndIf, None),
    ])
    .unwrap();

    assert_eq!(Some(7i32), sm.pop());
}

#[test]
fn test_if_false_nested() {
    let mut sm = StackMachine::new(2u32.pow(8));

    sm.execute(vec![
        (Op::Const, Some(1i32)),
        (Op::If, None),
        (Op::Const, Some(3i32)),
        (Op::Const, Some(0i32)),
        (Op::If, None),
        (Op::Const, Some(7i32)),
        (Op::EndIf, None),
        (Op::EndIf, None),
    ])
    .unwrap();

    assert_eq!(Some(3i32), sm.pop());
}

#[test]
fn test_not_succeeds() {
    let mut sm = StackMachine::new(2u32.pow(8));

    sm.execute(vec![(Op::Const, Some(0i32)), (Op::Not, None)])
        .unwrap();

    assert_eq!(Some(1i32), sm.pop());
}

#[test]
fn test_not_fails() {
    let mut sm = StackMachine::new(2u32.pow(8));

    sm.execute(vec![(Op::Const, Some(1i32)), (Op::Not, None)])
        .unwrap();

    assert_eq!(Some(0i32), sm.pop());
}

#[test]
fn test_integration_builder() {
    let mut builder = stackmachine::Builder::new(2u32.pow(16));
    builder.const_(5).const_(2).mul().execute().unwrap();
    assert_eq!(Some(10i32), builder.sm.last());
}

#[test]
fn lib_test_function_table() {
    let mut sm = StackMachine::new(2u32);

    sm.function_table
        .insert("fn".to_string(), vec![(Op::Add, None)]);

    sm.execute(vec![
        (Op::Const, Some(3i32)),
        (Op::Const, Some(2i32)),
        (Op::Const, Some(0i32)), // Char codes for 'fn'
        (Op::Const, Some(110i32)),
        (Op::Const, Some(102i32)),
        (Op::Call, None),
    ])
    .unwrap();

    assert_eq!(Some(2 + 3), sm.pop());
}

#[test]
fn lib_test_fn_define() {
    let mut sm = StackMachine::new(2u32);

    sm.execute(vec![
        (Op::Const, Some(0i32)), // Char codes for 'fn'
        (Op::Const, Some(110i32)),
        (Op::Const, Some(102i32)),
        (Op::Function, None), // start function definition
        (Op::Add, None),
        (Op::EndFunction, None),
    ])
    .unwrap();

    assert!(sm.function_table.contains_key("fn"));
}

#[test]
fn test_fn_call() {
    let mut sm = StackMachine::new(2u32);

    sm.execute(vec![
        (Op::Const, Some(0i32)), // Char codes for 'fn'
        (Op::Const, Some(110i32)),
        (Op::Const, Some(102i32)),
        (Op::Function, None), // start function definition
        (Op::Add, None),
        (Op::EndFunction, None),
        (Op::Const, Some(1i32)), // arguments to function `fn`
        (Op::Const, Some(2i32)),
        (Op::Const, Some(0i32)), // Char codes for 'fn'
        (Op::Const, Some(110i32)),
        (Op::Const, Some(102i32)),
        (Op::Call, None), // Call function
    ])
    .unwrap();

    assert!(sm.function_table.contains_key("fn"));
    assert_eq!(sm.last(), Some(1 + 2));
}

#[test]
fn test_ext_fn_call() {
    let mut sm = StackMachine::new(2u32);

    sm.ext_functions
        .insert("sum_n".to_string(), Native::new(Box::new(SumN)));

    sm.execute(vec![
        (Op::Const, Some(2)),
        (Op::Const, Some(2)),
        (Op::Const, Some(3)), // previous 3 values are to be summed
        (Op::Const, Some(3)), // number of values to sum
        (Op::Const, Some(0)), // Char codes for `sum_n`
        (Op::Const, Some(110)),
        (Op::Const, Some(95)),
        (Op::Const, Some(109)),
        (Op::Const, Some(117)),
        (Op::Const, Some(115)),
        (Op::CallExt, None), // External summing func
    ])
    .unwrap();

    assert_eq!(sm.last(), Some(3 + 2 + 2));
}
