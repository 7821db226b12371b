use tree_lexer::cursor::{Cursor, EOF};
use tree_lexer::Location;

#[test]
fn test_consumed() {
    let mut cursor = Cursor::new("0123456789");

    cursor.advance();
    assert_eq!(cursor.consumed(), 1);

    cursor.advance();
    assert_eq!(cursor.consumed(), 2);

    cursor.advance();
    assert_eq!(cursor.consumed(), 3);

    cursor.advance();
    cursor.advance();
    cursor.advance();
    assert_eq!(cursor.consumed(), 6);
}

#[test]
fn test_reset_consumed() {
    let mut cursor = Cursor::new("0123456789");

    cursor.advance();
    assert_eq!(cursor.consumed(), 1);

    cursor.advance();
    cursor.reset_consumed();
    assert_eq!(cursor.consumed(), 0);
}

#[test]
fn test_is_eof() {
    let mut cursor = Cursor::new("123");

    cursor.advance();
    assert!(!cursor.is_eof());

    cursor.advance();
    cursor.advance();
    assert!(cursor.is_eof());
}

#[test]
fn test_peek_first() {
    let mut cursor = Cursor::new("123");

    assert_eq!(cursor.peek_first(), '1');

    cursor.advance();
    assert_eq!(cursor.peek_first(), '2');
}

#[test]
fn test_peek_second() {
    let mut cursor = Cursor::new("123");

    assert_eq!(cursor.peek_second(), '2');

    cursor.advance();
    assert_eq!(cursor.peek_second(), '3');
}

#[test]
fn test_advance() {
    let mut cursor = Cursor::new("123");

    assert_eq!(cursor.advance(), Some('1'));
    assert_eq!(cursor.advance(), Some('2'));
    assert_eq!(cursor.advance(), Some('3'));
    assert_eq!(cursor.advance(), None);
}

#[test]
fn test_newline_advance() {
    let mut cursor = Cursor::new("123\n456");
    let expected = Location { line: 1, column: 0 };

    cursor.advance();
    cursor.advance();
    cursor.advance();
    cursor.advance();

    assert_eq!(cursor.location(), expected);
}

#[test]
fn test_eat_while() {
    let mut cursor = Cursor::new("aaaaaaaaaaaaab");
    cursor.eat_while(|c| c == 'a');

    assert_eq!(cursor.peek_first(), 'b');
}

#[test]
fn eat_while_returns_what_it_read() {
    let mut cursor = Cursor::new("aaab");
    assert_eq!(cursor.eat_while(|c| c == 'a'), "aaa");
    assert_eq!(cursor.consumed(), 3);
    assert_eq!(cursor.eat_while(|c| c == 'a'), "");
    assert_eq!(cursor.consumed(), 3);
}

#[test]
fn eat_while_stops_at_the_end_of_the_text() {
    let mut cursor = Cursor::new("aaa");
    assert_eq!(cursor.eat_while(|_| true), "aaa");
    assert!(cursor.is_eof());
    assert_eq!(cursor.advance(), None);
}

#[test]
fn peeks_at_the_boundary_give_the_sentinel() {
    let mut cursor = Cursor::new("1");
    assert_eq!(cursor.peek_first(), '1');
    assert_eq!(cursor.peek_second(), EOF);
    cursor.advance();
    assert_eq!(cursor.peek_first(), EOF);
    assert_eq!(cursor.peek_second(), EOF);

    let empty = Cursor::new("");
    assert!(empty.is_eof());
    assert_eq!(empty.peek_first(), '\0');
    assert_eq!(empty.peek_second(), '\0');
}

#[test]
fn peeks_read_nothing() {
    let cursor = Cursor::new("ab");
    assert_eq!(cursor.peek_first(), 'a');
    assert_eq!(cursor.peek_second(), 'b');
    assert_eq!(cursor.peek_first(), 'a');
    assert_eq!(cursor.consumed(), 0);
    assert_eq!(cursor.location(), Location { line: 0, column: 0 });
}

#[test]
fn advance_at_the_end_changes_nothing() {
    let mut cursor = Cursor::new("a\nb");
    cursor.advance();
    cursor.advance();
    cursor.advance();
    let location = cursor.location();
    let consumed = cursor.consumed();
    assert_eq!(cursor.advance(), None);
    assert_eq!(cursor.location(), location);
    assert_eq!(cursor.consumed(), consumed);
    assert_eq!(location, Location { line: 1, column: 1 });
    assert_eq!(consumed, 3);
}

#[test]
fn location_follows_lines_and_columns() {
    let mut cursor = Cursor::new("ab\n\ncd");
    assert_eq!(cursor.location(), Location { line: 0, column: 0 });
    cursor.advance();
    assert_eq!(cursor.location(), Location { line: 0, column: 1 });
    cursor.advance();
    assert_eq!(cursor.location(), Location { line: 0, column: 2 });
    cursor.advance();
    assert_eq!(cursor.location(), Location { line: 1, column: 0 });
    cursor.advance();
    assert_eq!(cursor.location(), Location { line: 2, column: 0 });
    cursor.advance();
    cursor.advance();
    assert_eq!(cursor.location(), Location { line: 2, column: 2 });
}

#[test]
fn whitespace_and_a_trailing_newline() {
    let mut cursor = Cursor::new("  \t \n");
    assert_eq!(cursor.eat_while(|c| c == ' ' || c == '\t'), "  \t ");
    assert_eq!(cursor.location(), Location { line: 0, column: 4 });
    assert_eq!(cursor.advance(), Some('\n'));
    assert_eq!(cursor.location(), Location { line: 1, column: 0 });
    assert!(cursor.is_eof());
}

#[test]
fn consumed_counts_characters() {
    let mut cursor = Cursor::new("猫数x");
    cursor.advance();
    assert_eq!(cursor.consumed(), 1);
    cursor.advance();
    assert_eq!(cursor.consumed(), 2);
    assert_eq!(cursor.peek_first(), 'x');
    assert_eq!(cursor.location(), Location { line: 0, column: 2 });
}

#[test]
fn reset_consumed_keeps_the_location() {
    let mut cursor = Cursor::new("ab\ncd");
    cursor.advance();
    cursor.advance();
    cursor.advance();
    cursor.advance();
    cursor.reset_consumed();
    assert_eq!(cursor.location(), Location { line: 1, column: 1 });
    cursor.advance();
    assert_eq!(cursor.consumed(), 1);
}

#[test]
fn counter_steps_touch_one_counter_each() {
    let mut cursor = Cursor::new("abc");
    cursor.increment_column();
    cursor.increment_column();
    assert_eq!(cursor.location(), Location { line: 0, column: 2 });
    cursor.increment_line();
    assert_eq!(cursor.location(), Location { line: 1, column: 2 });
    cursor.reset_column();
    assert_eq!(cursor.location(), Location { line: 1, column: 0 });
    assert_eq!(cursor.consumed(), 0);
    assert_eq!(cursor.peek_first(), 'a');
}
