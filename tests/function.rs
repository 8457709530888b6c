use stackmachine::{Native, NativeFunction, Op, StackMachine};

fn sum_n(stack: &mut Vec<i32>) {
    if let Some(mut nargs) = stack.pop() {
        let mut total = 0;
        while nargs > 0 {
            match stack.pop() {
                Some(v) => {
                    total += v;
                }
                None => {
                    stack.push(-1);
                    return;
                }
            }
            nargs -= 1;
        }
        stack.push(total);
    } else {
        stack.push(-1);
    }
}

struct SumN;

impl NativeFunction for SumN {
    fn call(&self, stack: &mut Vec<i32>) {
        sum_n(stack)
    }
}

#[test]
fn function_test_function_table() {
    let mut sm = StackMachine::new(2u32);

    sm.function_table.insert("fn".to_string(), vec![(Op::Add, None)]);

    sm.execute(vec![
        (Op::Const, Some(3i32)),
        (Op::Const, Some(2i32)),
        (Op::Const, Some(0i32)), // Char codes for 'fn'
        (Op::Const, Some(110i32)),
        (Op::Const, Some(102i32)),
        (Op::Call, None),
    ])
    .unwrap();

    assert_eq!(Some(2 + 3), sm.pop());
}

#[test]
fn test_ext_function() {
    let mut sm = StackMachine::new(2u32);
    sm.ext_functions.push(Native::new(Box::new(SumN)));
    sm.push(2);
    sm.push(2);
    sm.push(2);
    sm.push(3);
    sm.execute(vec![(Op::CallExt, Some(0))]).unwrap();
    assert_eq!(sm.last(), Some(6));
}

#[test]
fn function_test_fn_define() {
    let mut sm = StackMachine::new(2u32);

    sm.execute(vec![
        (Op::Const, Some(0i32)), // Char codes for 'fn'
        (Op::Const, Some(110i32)),
        (Op::Const, Some(102i32)),
        (Op::Function, None), // start function definition
        (Op::Add, None),
        (Op::EndFunction, None),
    ])
    .unwrap();

    assert!(sm.function_table.contains_key("fn"));
}

#[test]
fn test_fn_define_call() {
    let mut sm = StackMachine::new(2u32);

    sm.execute(vec![
        (Op::Const, Some(0i32)), // Char codes for 'fn'
        (Op::Const, Some(110i32)),
        (Op::Const, Some(102i32)),
        (Op::Function, None), // start function definition
        (Op::Add, None),
        (Op::EndFunction, None),
        (Op::Const, Some(3i32)),
        (Op::Const, Some(2i32)),
        (Op::Const, Some(0i32)), // Char codes for 'fn'
        (Op::Const, Some(110i32)),
        (Op::Const, Some(102i32)),
        (Op::Call, None),
    ])
    .unwrap();

    assert_eq!(sm.last(), Some(3 + 2));
}

#[test]
fn call_func_ext_by_index_and_out_of_range() {
    let mut sm = StackMachine::new(2u32);
    sm.ext_functions.push(Native::new(Box::new(SumN)));
    sm.push(4);
    sm.push(5);
    sm.push(2);
    assert_eq!(sm.call_func_ext(0), Ok(()));
    assert_eq!(sm.stack, vec![9]);
    assert_eq!(sm.call_func_ext(1), Err(stackmachine::Fault::UnknownExternal));
    assert_eq!(sm.stack, vec![9]);
}
