use stackmachine::{Builder, Op};

#[test]
fn test_builder_new() {
    let builder = Builder::new(2u32.pow(16));

    assert_eq!(Vec::<i32>::new(), builder.sm.stack);
}

#[test]
fn test_builder_const() {
    let mut builder = Builder::new(2u32.pow(16));

    builder.const_(5).execute().unwrap();

    assert_eq!(Some(5), builder.sm.last());
}

#[test]
fn test_builder_add() {
    let mut builder = Builder::new(2u32.pow(16));

    builder.const_(5).const_(3).add().execute().unwrap();

    assert_eq!(Some(8), builder.sm.last());
}

#[test]
fn test_builder_sub() {
    let mut builder = Builder::new(2u32.pow(16));

    builder.const_(5).const_(3).sub().execute().unwrap();

    // The top is subtracted from the value below it: 5 - 3.
    assert_eq!(Some(2), builder.sm.last());
}

#[test]
fn test_builder_mul() {
    let mut builder = Builder::new(2u32.pow(16));

    builder.const_(5).const_(3).mul().execute().unwrap();

    assert_eq!(Some(15), builder.sm.last());
}

#[test]
fn test_builder_div() {
    let mut builder = Builder::new(2u32.pow(16));

    builder.const_(5).const_(3).div().execute().unwrap();

    // The value below the top is divided by the top: 5 / 3.
    assert_eq!(Some(1), builder.sm.last());
}

#[test]
fn test_builder_fork() {
    let mut builder = Builder::new(2u32.pow(16));

    builder.fork().child().execute().unwrap();

    assert_eq!(Some(0), builder.sm.last());
}

#[test]
fn test_builder_get_pid() {
    let mut builder = Builder::new(2u32.pow(16));

    builder.fork().get_pid().execute().unwrap();

    assert_eq!(Some(0), builder.sm.last());
}

#[test]
fn test_builder_succeeds() {
    let mut builder = Builder::new(2u32.pow(16));

    builder.const_(1).if_().const_(5).end_if().execute().unwrap();

    assert_eq!(Some(5), builder.sm.last());
}

#[test]
fn test_builder_fails() {
    let mut builder = Builder::new(2u32.pow(16));

    builder
        .const_(5)
        .const_(0)
        .if_()
        .const_(3)
        .end_if()
        .execute()
        .unwrap();

    assert_eq!(Some(5), builder.sm.last());
}

#[test]
fn test_builder_not() {
    let mut builder = Builder::new(2u32.pow(16));

    builder.const_(0).not().execute().unwrap();

    assert_eq!(Some(1), builder.sm.last());

    builder.const_(1).not().execute().unwrap();

    assert_eq!(Some(0), builder.sm.last());
}

#[test]
fn test_builder_call() {
    let mut builder = Builder::new(2u32.pow(16));
    builder
        .sm
        .function_table
        .insert("fn".to_string(), vec![(Op::Add, None)]);

    builder
        .const_(5)
        .const_(3)
        .const_(0) // char codes for "fn"
        .const_(110)
        .const_(102)
        .call()
        .execute()
        .unwrap();

    assert_eq!(Some(5 + 3), builder.sm.last());
}

#[test]
fn builder_comparisons_and_print() {
    let mut builder = Builder::new(2u32.pow(16));
    builder.const_(3).const_(2).gt().print().execute().unwrap();
    assert_eq!(Some(1), builder.sm.last());
    assert_eq!(builder.sm.output, vec![stackmachine::Output::Number(1)]);

    let mut b2 = Builder::new(16);
    b2.const_(3).const_(2).lt().const_(2).const_(2).gte().const_(2).const_(3).lte().const_(4).const_(4).eq().execute().unwrap();
    assert_eq!(b2.sm.stack, vec![0, 1, 1, 1]);
}

#[test]
fn builder_reports_structural_error() {
    let mut builder = Builder::new(16);
    builder.const_(1).if_().const_(2);
    let r = builder.execute();
    assert!(matches!(
        r,
        Err(stackmachine::ExecError::Syntax(stackmachine::SyntaxError::UnbalancedIf { ifs: 1, end_ifs: 0 }))
    ));
    assert_eq!(builder.sm.stack, Vec::<i32>::new());
    assert_eq!(builder.code.len(), 3);
}
