use omglang::{OmgError, Position};

#[test]
fn error_position() {
    let pos = Position::new("test.omg").with_pos(1, 2);
    let display = pos.to_string();
    assert_eq!(display, "test.omg:1:2");
}

#[test]
fn omg_error() {
    let pos = Position::new("test.omg").with_pos(1, 2);
    let error = OmgError::new("Test error".to_owned(), pos);
    let display = error.to_string();
    assert_eq!(display, "test.omg:1:2: Test error\n");
}

#[test]
fn position_add_and_newline() {
    let pos = Position::new("a.omg");
    assert_eq!(pos.line, 1);
    assert_eq!(pos.column, 1);
    let moved = pos.add(4);
    assert_eq!(moved.to_string(), "a.omg:1:5");
    let next = moved.newline();
    assert_eq!(next.to_string(), "a.omg:2:1");
    assert_eq!(next, Position::new("a.omg").with_pos(2, 1));
    assert_ne!(next, Position::new("b.omg").with_pos(2, 1));
}

#[test]
fn error_keeps_message_and_position_text() {
    let error = OmgError::new("bad".to_owned(), Position::new("x").with_pos(12, 340));
    assert_eq!(error.msg, "bad");
    assert_eq!(error.pos, "x:12:340");
}
