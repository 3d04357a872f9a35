use omglang::{parse, parse_block, Exp, OpType, Tokens, Value};

fn number(s: &str) -> Result<u64, String> {
    s.parse::<f64>().map(f64::to_bits).map_err(|e| e.to_string())
}

fn num(x: f64) -> Value {
    Value::Number(x.to_bits())
}

fn parse_text(code: &str) -> Result<Exp, omglang::OmgError> {
    let mut tokens = Tokens::lex(code, "test.omg").unwrap();
    parse(&mut tokens, &number)
}

fn block_text(code: &str) -> Result<Exp, omglang::OmgError> {
    let mut tokens = Tokens::lex(code, "test.omg").unwrap();
    parse_block(&mut tokens, &number)
}

fn literal_of(e: &Exp) -> Value {
    match e {
        Exp::Literal(l) => l.value,
        other => panic!("not a literal: {:?}", other),
    }
}

#[test]
fn number_literal() {
    let e = parse_text("42").unwrap();
    assert_eq!(literal_of(&e), num(42.0));
    let e = parse_text("007").unwrap();
    assert_eq!(literal_of(&e), num(7.0));
}

#[test]
fn boolean_literals() {
    assert_eq!(literal_of(&parse_text("true").unwrap()), Value::True);
    assert_eq!(literal_of(&parse_text("false").unwrap()), Value::False);
}

#[test]
fn call_with_arguments_in_order() {
    let e = parse_text("f(1, x, g())").unwrap();
    match e {
        Exp::Call(c) => {
            assert_eq!(c.name, "f");
            assert_eq!(c.args.len(), 3);
            assert_eq!(literal_of(&c.args[0]), num(1.0));
            match &c.args[1] {
                Exp::Variable(v) => assert_eq!(v.name, "x"),
                other => panic!("{:?}", other),
            }
            match &c.args[2] {
                Exp::Call(g) => {
                    assert_eq!(g.name, "g");
                    assert!(g.args.is_empty());
                }
                other => panic!("{:?}", other),
            }
            assert_eq!(c.pos.to_string(), "test.omg:1:1");
        }
        other => panic!("{:?}", other),
    }
}

#[test]
fn call_missing_separator() {
    let err = parse_text("f(1 2)").unwrap_err();
    assert_eq!(err.msg, "Expected ) or , found 2");
    assert_eq!(err.pos, "test.omg:1:5");
}

#[test]
fn subtraction_groups_to_the_right() {
    let e = parse_text("1-2-3").unwrap();
    match e {
        Exp::Operator(outer) => {
            assert_eq!(outer.op_type, OpType::Subtract);
            assert_eq!(literal_of(&outer.lhs), num(1.0));
            match *outer.rhs {
                Exp::Operator(inner) => {
                    assert_eq!(inner.op_type, OpType::Subtract);
                    assert_eq!(literal_of(&inner.lhs), num(2.0));
                    assert_eq!(literal_of(&inner.rhs), num(3.0));
                    assert_eq!(inner.pos.to_string(), "test.omg:1:3");
                }
                other => panic!("{:?}", other),
            }
            assert_eq!(outer.pos.to_string(), "test.omg:1:1");
        }
        other => panic!("{:?}", other),
    }
}

#[test]
fn assignment_of_expression() {
    let e = parse_text("x = 1 < 2").unwrap();
    match e {
        Exp::Assignment(a) => {
            assert_eq!(a.name, "x");
            match *a.value {
                Exp::Operator(o) => assert_eq!(o.op_type, OpType::LessThan),
                other => panic!("{:?}", other),
            }
        }
        other => panic!("{:?}", other),
    }
}

#[test]
fn unexpected_leading_token() {
    let err = parse_text(";").unwrap_err();
    assert_eq!(err.msg, "Expected identifier or number found ;");
    assert_eq!(err.pos, "test.omg:1:1");
}

#[test]
fn block_of_statements_in_order() {
    let e = block_text("a = 1; b; print(a);").unwrap();
    match e {
        Exp::Block(b) => {
            assert_eq!(b.statements.len(), 3);
            assert!(matches!(&b.statements[0], Exp::Assignment(a) if a.name == "a"));
            assert!(matches!(&b.statements[1], Exp::Variable(v) if v.name == "b"));
            assert!(matches!(&b.statements[2], Exp::Call(c) if c.name == "print"));
        }
        other => panic!("{:?}", other),
    }
}

#[test]
fn block_missing_semicolon_between_statements() {
    let err = block_text("a = 1 b;").unwrap_err();
    assert_eq!(err.msg, "Expected ; found b");
    assert_eq!(err.pos, "test.omg:1:7");
}

#[test]
fn block_final_statement_without_semicolon_is_left_out() {
    let e = block_text("a; b").unwrap();
    match e {
        Exp::Block(b) => {
            assert_eq!(b.statements.len(), 1);
            assert!(matches!(&b.statements[0], Exp::Variable(v) if v.name == "a"));
        }
        other => panic!("{:?}", other),
    }
}

#[test]
fn empty_program_is_an_error() {
    let err = block_text("").unwrap_err();
    assert_eq!(err.msg, "Expected identifier or number found ");
}

#[test]
fn refused_number_reader_is_a_parse_error() {
    let mut tokens = Tokens::lex("5", "n.omg").unwrap();
    let refuse = |_: &str| -> Result<u64, String> { Err("too big".to_owned()) };
    let err = parse(&mut tokens, &refuse).unwrap_err();
    assert_eq!(err.msg, "Unable to covert 5 into an integer: too big");
    assert_eq!(err.pos, "n.omg:1:1");
}
