use omglang::{parse_block, Exp, Native, OpType, Position, Runtime, Scope, Tokens, Value};

fn arith(op: OpType, a: u64, b: u64) -> Value {
    let (x, y) = (f64::from_bits(a), f64::from_bits(b));
    match op {
        OpType::Add => Value::Number((x + y).to_bits()),
        OpType::Subtract => Value::Number((x - y).to_bits()),
        OpType::Multiply => Value::Number((x * y).to_bits()),
        OpType::Divide => Value::Number((x / y).to_bits()),
        OpType::Equal => Value::from_bool(x == y),
        OpType::GreaterThan => Value::from_bool(x > y),
        OpType::LessThan => Value::from_bool(x < y),
    }
}

fn show(b: u64) -> String {
    format!("{}", f64::from_bits(b))
}

fn number(s: &str) -> Result<u64, String> {
    s.parse::<f64>().map(f64::to_bits).map_err(|e| e.to_string())
}

fn num(x: f64) -> Value {
    Value::Number(x.to_bits())
}

fn program(code: &str) -> Exp {
    let mut tokens = Tokens::lex(code, "test.omg").unwrap();
    parse_block(&mut tokens, &number).unwrap()
}

#[test]
fn literal() {
    let mut run = Runtime::new();

    let value = num(42.0);
    let exp = Exp::new_literal(value, Position::new("test"));
    assert_eq!(run.run(&exp, &arith, &show).unwrap(), value);
}

#[test]
fn block() {
    let mut run = Runtime::new();

    let exp = Exp::new_block(
        vec![Exp::new_literal(num(42.0), Position::new("test"))],
        Position::new("test"),
    );
    assert_eq!(run.run(&exp, &arith, &show).unwrap(), Value::Nothing);
    assert!(run.output().is_empty());
}

#[test]
fn call_not_found() {
    let mut run = Runtime::new();

    let exp = Exp::new_call("test".to_string(), Vec::new(), Position::new("test"));
    run.run(&exp, &arith, &show).unwrap_err();
}

#[test]
fn set_get_variable() {
    let mut run = Runtime::new();
    let set = Exp::new_assignment(
        "test".to_string(),
        Box::new(Exp::new_literal(num(42.0), Position::new("test"))),
        Position::new("test"),
    );
    run.run(&set, &arith, &show).unwrap();
    let get = Exp::new_variable("test".to_string(), Position::new("test"));
    assert_eq!(run.run(&get, &arith, &show).unwrap(), num(42.0));
}

#[test]
fn print_writes_one_line() {
    let mut run = Runtime::new();
    let exp = Exp::new_call(
        "print".to_string(),
        vec![
            Exp::new_literal(num(1.0), Position::new("test")),
            Exp::new_literal(num(2.0), Position::new("test")),
        ],
        Position::new("test"),
    );
    assert_eq!(run.run(&exp, &arith, &show).unwrap(), Value::Nothing);
    assert_eq!(run.output(), &vec!["1 2".to_string()]);
}

#[test]
fn missing_function_reports_call_position() {
    let mut run = Runtime::new();
    let exp = Exp::new_call("missing".to_string(), Vec::new(), Position::new("m.omg").with_pos(3, 7));
    let err = run.run(&exp, &arith, &show).unwrap_err();
    assert_eq!(err.msg, "Cant find function named missing to call");
    assert_eq!(err.pos, "m.omg:3:7");
}

#[test]
fn undefined_variable_reads_nothing() {
    let mut run = Runtime::new();
    let get = Exp::new_variable("nope".to_string(), Position::new("test"));
    assert_eq!(run.run(&get, &arith, &show).unwrap(), Value::Nothing);
}

#[test]
fn program_prints_in_order() {
    let mut run = Runtime::new();
    let exp = program("x = 6 * 7; print(x, x == 42, 1 > 2, nope); print(print); print(7 / 2 - 1);");
    assert_eq!(run.run(&exp, &arith, &show).unwrap(), Value::Nothing);
    assert_eq!(
        run.output(),
        &vec![
            "42 True False Nothing".to_string(),
            "BuiltIn function".to_string(),
            "7".to_string(),
        ]
    );
}

#[test]
fn failure_stops_later_statements() {
    let mut run = Runtime::new();
    let exp = program("print(1); nothing_here(print(2)); print(3);");
    let err = run.run(&exp, &arith, &show).unwrap_err();
    assert_eq!(err.pos, "test.omg:1:11");
    assert_eq!(run.output(), &vec!["1".to_string()]);
}

#[test]
fn argument_failure_keeps_earlier_output() {
    let mut run = Runtime::new();
    let exp = program("print(print(5), missing());");
    run.run(&exp, &arith, &show).unwrap_err();
    assert_eq!(run.output(), &vec!["5".to_string()]);
}

#[test]
fn fresh_runtimes_print_the_same() {
    let exp = program("a = 2; print(a + 1); a = a * a; print(a, true == true);");
    let mut first = Runtime::new();
    first.run(&exp, &arith, &show).unwrap();
    let mut second = Runtime::new();
    second.run(&exp, &arith, &show).unwrap();
    assert_eq!(first.output(), second.output());
    assert_eq!(first.output(), &vec!["3".to_string(), "4 True".to_string()]);
}

#[test]
fn get_missing() {
    let scope = Scope::new();
    assert_eq!(scope.get("missing"), Value::Nothing);
}

#[test]
fn set_get_value() {
    let mut scope = Scope::new();
    let value = num(42.0);
    scope.set("life".to_string(), value);

    assert_eq!(scope.get("life"), value);
}

#[test]
fn std_lib_binds_print() {
    let mut scope = Scope::new();
    omglang::add_std_lib(&mut scope);
    assert_eq!(scope.get("print"), Value::NativeFunction(Native::Print));
}
