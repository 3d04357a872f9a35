use omglang::{lexer, Position, Source, Token, Tokens};

fn new_test(code: &str) -> Tokens {
    Tokens::lex(code, "test_code").expect("Failed to tokenize test_data:")
}

#[test]
fn one_of_each() {
    let mut tokens = new_test("test 42 ( ) , ;");
    assert_eq!(tokens.current(), Token::Identifier);
    tokens.next();
    assert_eq!(tokens.current(), Token::Number);
    tokens.next();
    assert_eq!(tokens.current(), Token::ParenthesesOpen);
    tokens.next();
    assert_eq!(tokens.current(), Token::ParenthesesClose);
    tokens.next();
    assert_eq!(tokens.current(), Token::Comma);
    tokens.next();
    assert_eq!(tokens.current(), Token::Semicolon);
    tokens.next();
    assert_eq!(tokens.current(), Token::EndOfFile);
}

#[test]
fn go_pass_end() {
    let mut tokens = new_test("42");
    tokens.next(); // At end.
    tokens.next(); // over the end.
    assert_eq!(tokens.current(), Token::EndOfFile);
}

#[test]
fn expect_true() {
    let mut tokens = new_test("test 42");
    assert_eq!(tokens.expect(Token::Number), true);
    assert_eq!(tokens.current(), Token::Number);
}

#[test]
fn expect_false() {
    let mut tokens = new_test("test 42");
    assert_eq!(tokens.expect(Token::Semicolon), false);
    assert_eq!(tokens.current(), Token::Identifier);
}

#[test]
fn get_pass_end() {
    let tokens = new_test("42");
    assert_eq!(tokens.get(2), Token::EndOfFile);
}

#[test]
fn track_column() {
    let mut tokens = new_test("test 2 3 4");
    assert_eq!(tokens.position().column, 1);
    tokens.next();
    assert_eq!(tokens.position().column, 6);
    tokens.next();
    assert_eq!(tokens.position().column, 8);
    tokens.next();
    assert_eq!(tokens.position().column, 10);
    tokens.next();
    assert_eq!(tokens.position().column, 11);
}

#[test]
fn track_line() {
    let mut tokens = new_test("test 2\r\n3 4");
    assert_eq!(tokens.position().line, 1);
    tokens.next();
    assert_eq!(tokens.position().line, 1);
    tokens.next();
    assert_eq!(tokens.position().line, 2);
    tokens.next();
    assert_eq!(tokens.position().line, 2);
    tokens.next();
    assert_eq!(tokens.position().line, 2);
    assert_eq!(tokens.position().column, 4);
}

#[test]
fn tokens_position() {
    let mut tokens = Tokens::lex("test 2\r\n3 4", "test.omg").unwrap();
    tokens.next();
    tokens.next();
    tokens.next();
    assert_eq!(tokens.position(), Position::new("test.omg").with_pos(2, 3));
}

#[test]
fn slice() {
    let tokens = Tokens::lex("test", "test.omg").unwrap();
    assert_eq!(tokens.slice(), "test");
}

#[test]
fn unknown_token() {
    let result = Tokens::lex("test @", "test.omg");
    let err = result.expect_err("@ should not be valid omg code for this test");

    assert_eq!(err.msg, "Found unknown character in \"@\" in file.");
}

#[test]
fn unknown_token_position() {
    let err = Tokens::lex("a\n  $", "f.omg").expect_err("$ starts no token");
    assert_eq!(err.pos, "f.omg:2:3");
}

#[test]
fn operators_and_keywords() {
    let mut tokens = new_test("true false truex == = + - * / > < x_1");
    let kinds = [
        Token::True,
        Token::False,
        Token::Identifier,
        Token::OpEqual,
        Token::Assignment,
        Token::OpAdd,
        Token::OpSubtract,
        Token::OpMultiply,
        Token::OpDivide,
        Token::OpGreaterThan,
        Token::OpLessThan,
        Token::Identifier,
        Token::EndOfFile,
    ];
    for k in kinds.iter() {
        assert_eq!(tokens.current(), *k);
        tokens.next();
    }
}

#[test]
fn digits_then_name_split() {
    let mut tokens = new_test("12ab");
    assert_eq!(tokens.current(), Token::Number);
    assert_eq!(tokens.slice(), "12");
    tokens.next();
    assert_eq!(tokens.current(), Token::Identifier);
    assert_eq!(tokens.slice(), "ab");
    assert_eq!(tokens.position().column, 3);
}

#[test]
fn empty_source_is_end_only() {
    let tokens = lexer(Source { source: String::new(), path: "e.omg".to_owned() }).unwrap();
    assert_eq!(tokens.current(), Token::EndOfFile);
    assert_eq!(tokens.slice(), "");
    assert_eq!(tokens.position().to_string(), "e.omg:1:1");
}

#[test]
fn pushed_tokens_are_read_back() {
    let mut tokens = Tokens::new("p".to_owned());
    tokens.push(Token::Identifier, "x".to_owned(), 3, 4);
    tokens.push(Token::EndOfFile, String::new(), 3, 5);
    assert_eq!(tokens.current(), Token::Identifier);
    assert_eq!(tokens.peek(), Token::EndOfFile);
    assert_eq!(tokens.position().to_string(), "p:3:4");
}
