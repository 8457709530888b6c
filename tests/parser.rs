use stackmachine::{parse_opcode, Op, ParseError};

fn parse(line: &str) -> (Result<Option<Vec<i32>>, ParseError>, Vec<(Op, Option<i32>)>) {
    let mut code = Vec::new();
    let r = parse_opcode(line, &mut code);
    (r, code)
}

#[test]
fn parses_keywords_and_arguments() {
    assert_eq!(parse("const 5"), (Ok(None), vec![(Op::Const, Some(5))]));
    assert_eq!(parse("  ADD  "), (Ok(None), vec![(Op::Add, None)]));
    assert_eq!(parse("push -12"), (Ok(None), vec![(Op::Push, Some(-12))]));
    assert_eq!(parse("call +3"), (Ok(None), vec![(Op::Call, Some(3))]));
    assert_eq!(parse("const -2147483648"), (Ok(None), vec![(Op::Const, Some(i32::MIN))]));
    assert_eq!(parse("endfunction"), (Ok(None), vec![(Op::EndFunction, None)]));
    assert_eq!(parse("dbg"), (Ok(None), vec![(Op::Debug, None)]));
}

#[test]
fn parses_sugar_and_comments() {
    assert_eq!(parse("true"), (Ok(None), vec![(Op::Const, Some(1))]));
    assert_eq!(parse("False"), (Ok(None), vec![(Op::Const, Some(0))]));
    assert_eq!(parse("# a comment"), (Ok(None), vec![]));
    assert_eq!(parse("#const 5"), (Ok(None), vec![]));
    assert_eq!(parse(""), (Ok(None), vec![]));
    assert_eq!(parse("   "), (Ok(None), vec![]));
}

#[test]
fn pushstr_pushes_codes_last_first() {
    assert_eq!(
        parse("pushstr ab  c"),
        (
            Ok(None),
            vec![
                (Op::Const, Some(99)),
                (Op::Const, Some(32)),
                (Op::Const, Some(98)),
                (Op::Const, Some(97)),
            ]
        )
    );
}

#[test]
fn include_names_a_module() {
    assert_eq!(parse("include lib"), (Ok(Some(vec![108, 105, 98])), vec![]));
}

#[test]
fn parse_errors() {
    assert_eq!(parse("frobnicate").0, Err(ParseError::UnknownOpcode));
    assert_eq!(parse("const x").0, Err(ParseError::BadArgument));
    assert_eq!(parse("const 2147483648").0, Err(ParseError::BadArgument));
    assert_eq!(parse("const").0, Err(ParseError::MissingArgument));
    assert_eq!(parse("pushstr").0, Err(ParseError::MissingArgument));
    assert_eq!(parse("add 1 2").0, Err(ParseError::TooManyArguments));
    assert_eq!(parse("include a b").0, Err(ParseError::TooManyArguments));
    assert_eq!(parse("true 1").0, Err(ParseError::TooManyArguments));
    assert_eq!(parse("const x").1, vec![]);
}

#[test]
fn parsed_program_runs() {
    let source = [
        "# adds two numbers, then defines and calls a function",
        "const 4",
        "CONST 5",
        "add",
        "const 0",
        "pushstr dbl",
        "function",
        "const 2",
        "mul",
        "endfunction",
        "const 0",
        "pushstr dbl",
        "call",
        "true",
        "if",
        "  const 1",
        "else",
        "  const 2",
        "endif",
    ];
    let mut code = Vec::new();
    for line in source.iter() {
        assert_eq!(parse_opcode(line, &mut code), Ok(None));
    }
    let mut sm = stackmachine::StackMachine::new(64);
    assert_eq!(sm.execute(code), Ok(()));
    assert_eq!(sm.stack, vec![18, 1]);
}
