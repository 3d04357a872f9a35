use omglang::{Native, OpType, Value};

fn arith(op: OpType, a: u64, b: u64) -> Value {
    let (x, y) = (f64::from_bits(a), f64::from_bits(b));
    match op {
        OpType::Add => Value::Number((x + y).to_bits()),
        OpType::Subtract => Value::Number((x - y).to_bits()),
        OpType::Multiply => Value::Number((x * y).to_bits()),
        OpType::Divide => Value::Number((x / y).to_bits()),
        OpType::Equal => Value::from_bool(x == y),
        OpType::GreaterThan => Value::from_bool(x > y),
        OpType::LessThan => Value::from_bool(x < y),
    }
}

fn show(b: u64) -> String {
    format!("{}", f64::from_bits(b))
}

fn num(x: f64) -> Value {
    Value::Number(x.to_bits())
}

#[test]
fn nothing_to_string() {
    assert_eq!(Value::Nothing.to_string(&show), "Nothing")
}

#[test]
fn number_to_string() {
    assert_eq!(num(42.0).to_string(&show), "42")
}

#[test]
fn true_to_string() {
    assert_eq!(Value::True.to_string(&show), "True")
}

#[test]
fn false_to_string() {
    assert_eq!(Value::False.to_string(&show), "False")
}

#[test]
fn add_numbers() {
    assert_eq!(num(5.0).add(&num(10.0), &arith), num(15.0))
}

#[test]
fn add_wrong_type() {
    assert_eq!(num(5.0).add(&Value::Nothing, &arith), Value::Nothing)
}

#[test]
fn arithmetic_and_comparisons() {
    assert_eq!(num(5.0).subtract(&num(7.0), &arith), num(-2.0));
    assert_eq!(num(3.0).multiply(&num(4.0), &arith), num(12.0));
    assert_eq!(num(1.0).divide(&num(0.0), &arith), num(f64::INFINITY));
    assert_eq!(num(2.0).greater_than(&num(1.0), &arith), Value::True);
    assert_eq!(num(2.0).less_than(&num(1.0), &arith), Value::False);
    assert_eq!(Value::True.less_than(&num(1.0), &arith), Value::Nothing);
}

#[test]
fn equality_of_any_values() {
    assert_eq!(Value::True.equal(&Value::True, &arith), Value::True);
    assert_eq!(Value::Nothing.equal(&Value::False, &arith), Value::False);
    assert_eq!(num(0.0).equal(&num(-0.0), &arith), Value::True);
    let nan = num(f64::NAN);
    assert_eq!(nan.equal(&nan, &arith), Value::False);
    assert_eq!(num(1.0).equal(&Value::True, &arith), Value::False);
}

#[test]
fn native_print_joins_with_spaces() {
    let (v, line) = Native::Print.call(&vec![num(1.5), Value::Nothing, Value::True], &show);
    assert_eq!(v, Value::Nothing);
    assert_eq!(line, "1.5 Nothing True");
    let (_, empty) = Native::Print.call(&Vec::new(), &show);
    assert_eq!(empty, "");
}
