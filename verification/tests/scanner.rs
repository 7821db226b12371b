use tree_lexer::cursor::Cursor;
use tree_lexer::scanner::{double_punctuation, is_whitespace, punctuation, tokenize};
use tree_lexer::{Base, LexError, LexErrorKind, LiteralKind, Location, Token, TokenKind};

fn token(kind: TokenKind, literal: &str, line: usize, column: usize, length: usize) -> Token {
    Token { kind, literal: String::from(literal), location: Location { line, column }, length }
}

fn failure(kind: LexErrorKind, line: usize, column: usize) -> LexError {
    LexError { kind, location: Location { line, column } }
}

fn ident() -> TokenKind {
    TokenKind::Literal(LiteralKind::Ident { keyword: false })
}

fn number(base: Base) -> TokenKind {
    TokenKind::Literal(LiteralKind::Number(base))
}

#[test]
fn next_token_on_an_empty_text() {
    let mut cursor = Cursor::new("");
    assert_eq!(cursor.next_token(), None);
    assert_eq!(cursor.next_token(), None);
}

#[test]
fn next_token_reads_one_token_for_each_call() {
    let mut cursor = Cursor::new("let x1 = 0x_fF;");
    assert_eq!(cursor.next_token(), Some(Ok(token(ident(), "let", 0, 0, 3))));
    assert_eq!(cursor.next_token(), Some(Ok(token(TokenKind::Whitespace, " ", 0, 3, 1))));
    assert_eq!(cursor.next_token(), Some(Ok(token(ident(), "x1", 0, 4, 2))));
    assert_eq!(cursor.next_token(), Some(Ok(token(TokenKind::Whitespace, " ", 0, 6, 1))));
    assert_eq!(cursor.next_token(), Some(Ok(token(TokenKind::Assign, "=", 0, 7, 1))));
    assert_eq!(cursor.next_token(), Some(Ok(token(TokenKind::Whitespace, " ", 0, 8, 1))));
    assert_eq!(
        cursor.next_token(),
        Some(Ok(token(number(Base::Hexadecimal), "fF", 0, 9, 5)))
    );
    assert_eq!(cursor.consumed(), 5);
    assert_eq!(cursor.next_token(), Some(Ok(token(TokenKind::Semicolon, ";", 0, 14, 1))));
    assert_eq!(cursor.next_token(), None);
    assert_eq!(cursor.consumed(), 0);
    assert!(cursor.is_eof());
}

#[test]
fn two_character_operators_come_before_their_prefixes() {
    let kinds: Vec<TokenKind> =
        tokenize("<=<>=>(==!=!&&&|||=").into_iter().map(|item| item.unwrap().kind).collect();
    assert_eq!(
        kinds,
        vec![
            TokenKind::LessThanEqual,
            TokenKind::LessThan,
            TokenKind::GreaterThanEqual,
            TokenKind::GreaterThan,
            TokenKind::LeftParen,
            TokenKind::Equal,
            TokenKind::NotEqual,
            TokenKind::Not,
            TokenKind::And,
            TokenKind::BitwiseAnd,
            TokenKind::Or,
            TokenKind::BitwiseOr,
            TokenKind::Assign,
        ]
    );
}

#[test]
fn single_character_tokens() {
    let items = tokenize("+-*/%.,;:(){}[]");
    let kinds: Vec<TokenKind> = items.iter().map(|item| item.as_ref().unwrap().kind).collect();
    assert_eq!(
        kinds,
        vec![
            TokenKind::Add,
            TokenKind::Minus,
            TokenKind::Multiply,
            TokenKind::Divide,
            TokenKind::Modulo,
            TokenKind::Dot,
            TokenKind::Comma,
            TokenKind::Semicolon,
            TokenKind::Colon,
            TokenKind::LeftParen,
            TokenKind::RightParen,
            TokenKind::LeftBrace,
            TokenKind::RightBrace,
            TokenKind::LeftBracket,
            TokenKind::RightBracket,
        ]
    );
    for (column, item) in items.iter().enumerate() {
        let token = item.as_ref().unwrap();
        assert_eq!(token.location, Location { line: 0, column });
        assert_eq!(token.length, 1);
        assert_eq!(token.literal.chars().count(), 1);
    }
}

#[test]
fn punctuation_tables() {
    assert_eq!(punctuation('+'), Some(TokenKind::Add));
    assert_eq!(punctuation('='), Some(TokenKind::Assign));
    assert_eq!(punctuation('&'), Some(TokenKind::BitwiseAnd));
    assert_eq!(punctuation('a'), None);
    assert_eq!(punctuation('"'), None);
    assert_eq!(double_punctuation('<', '='), Some(TokenKind::LessThanEqual));
    assert_eq!(double_punctuation('|', '|'), Some(TokenKind::Or));
    assert_eq!(double_punctuation('=', '<'), None);
    assert_eq!(double_punctuation('&', '|'), None);
    assert!(is_whitespace(' ') && is_whitespace('\t') && is_whitespace('\n'));
    assert!(is_whitespace('\r'));
    assert!(!is_whitespace('a') && !is_whitespace('\0'));
}

#[test]
fn nested_comment_gives_no_token() {
    let mut cursor = Cursor::new("/* /* nested */ */x");
    assert_eq!(cursor.next_token(), Some(Ok(token(ident(), "x", 0, 18, 1))));
    assert_eq!(cursor.next_token(), None);

    assert_eq!(tokenize("/* /* nested */ */"), vec![]);
}

#[test]
fn line_comment_gives_no_token() {
    assert_eq!(
        tokenize("a// b c\nd"),
        vec![
            Ok(token(ident(), "a", 0, 0, 1)),
            Ok(token(TokenKind::Whitespace, "\n", 0, 7, 1)),
            Ok(token(ident(), "d", 1, 0, 1)),
        ]
    );
    assert_eq!(tokenize("// only a comment"), vec![]);
}

#[test]
fn a_slash_alone_divides() {
    assert_eq!(
        tokenize("a/b"),
        vec![
            Ok(token(ident(), "a", 0, 0, 1)),
            Ok(token(TokenKind::Divide, "/", 0, 1, 1)),
            Ok(token(ident(), "b", 0, 2, 1)),
        ]
    );
}

#[test]
fn unterminated_block_comment_is_a_failure() {
    let mut cursor = Cursor::new("a\n /* b");
    assert_eq!(cursor.next_token(), Some(Ok(token(ident(), "a", 0, 0, 1))));
    assert_eq!(cursor.next_token(), Some(Ok(token(TokenKind::Whitespace, "\n ", 0, 1, 2))));
    assert_eq!(
        cursor.next_token(),
        Some(Err(failure(LexErrorKind::UnterminatedBlockComment, 1, 1)))
    );
    assert!(cursor.is_eof());
    assert_eq!(cursor.next_token(), None);
}

#[test]
fn whitespace_is_one_token_for_each_run() {
    assert_eq!(
        tokenize(" \t\r\n  "),
        vec![Ok(token(TokenKind::Whitespace, " \t\r\n  ", 0, 0, 6))]
    );
}

#[test]
fn string_token_has_the_decoded_text_and_the_source_length() {
    let mut cursor = Cursor::new("\"a\\tb\" ");
    assert_eq!(
        cursor.next_token(),
        Some(Ok(token(TokenKind::Literal(LiteralKind::String), "a\tb", 0, 0, 6)))
    );
    assert_eq!(cursor.peek_first(), ' ');
}

#[test]
fn number_token_has_the_digits_and_the_source_length() {
    assert_eq!(
        tokenize("1_000 0b1_1"),
        vec![
            Ok(token(number(Base::Decimal), "1000", 0, 0, 5)),
            Ok(token(TokenKind::Whitespace, " ", 0, 5, 1)),
            Ok(token(number(Base::Binary), "11", 0, 6, 5)),
        ]
    );
}

#[test]
fn identifiers_of_several_scripts() {
    assert_eq!(
        tokenize("猫数+Кот"),
        vec![
            Ok(token(ident(), "猫数", 0, 0, 2)),
            Ok(token(TokenKind::Add, "+", 0, 2, 1)),
            Ok(token(ident(), "Кот", 0, 3, 3)),
        ]
    );
}

#[test]
fn unrecognized_character() {
    let mut cursor = Cursor::new("a#b");
    assert_eq!(cursor.next_token(), Some(Ok(token(ident(), "a", 0, 0, 1))));
    assert_eq!(
        cursor.next_token(),
        Some(Err(failure(LexErrorKind::UnrecognizedCharacter, 0, 1)))
    );
    assert_eq!(cursor.consumed(), 1);
    assert_eq!(cursor.next_token(), Some(Ok(token(ident(), "b", 0, 2, 1))));
    assert_eq!(cursor.next_token(), None);
}

#[test]
fn scanning_goes_on_behind_a_failure() {
    assert_eq!(
        tokenize("0p1 \"a\\qb \"c"),
        vec![
            Err(failure(LexErrorKind::InvalidNumberBase, 0, 0)),
            Ok(token(number(Base::Decimal), "1", 0, 2, 1)),
            Ok(token(TokenKind::Whitespace, " ", 0, 3, 1)),
            Err(failure(LexErrorKind::InvalidEscapeSequence, 0, 4)),
            Ok(token(ident(), "b", 0, 8, 1)),
            Ok(token(TokenKind::Whitespace, " ", 0, 9, 1)),
            Err(failure(LexErrorKind::UnterminatedString, 0, 10)),
        ]
    );
}

#[test]
fn scanning_twice_gives_the_same_tokens() {
    let source = "fn main() {\n  let x = 0xFF_FF; // c\n  /* /* n */ */ \"s\\n\" <= 0b1 #\n}";
    let first = tokenize(source);
    let second = tokenize(source);
    assert_eq!(first, second);
    assert_eq!(first.len(), 28);

    let mut cursor = Cursor::new(source);
    let mut third = Vec::new();
    while let Some(item) = cursor.next_token() {
        third.push(item);
    }
    assert_eq!(first, third);
}

#[test]
fn token_lengths_cover_the_text_without_comments() {
    let source = "a = \"x\\\"y\" + 0x1_0\n";
    let items = tokenize(source);
    let total: usize = items.iter().map(|item| item.as_ref().unwrap().length).sum();
    assert_eq!(total, source.chars().count());
    assert_eq!(items.last().unwrap().as_ref().unwrap().location, Location { line: 0, column: 18 });
}

#[test]
fn keywords_are_settled_by_the_table_that_is_asked() {
    let table = |name: &String| name == "let" || name == "fn";
    let resolved: Vec<Token> = tokenize("let x fn+")
        .into_iter()
        .map(|item| tree_lexer::scanner::resolve_keyword(item.unwrap(), table))
        .collect();
    assert_eq!(
        resolved,
        vec![
            token(TokenKind::Literal(LiteralKind::Ident { keyword: true }), "let", 0, 0, 3),
            token(TokenKind::Whitespace, " ", 0, 3, 1),
            token(TokenKind::Literal(LiteralKind::Ident { keyword: false }), "x", 0, 4, 1),
            token(TokenKind::Whitespace, " ", 0, 5, 1),
            token(TokenKind::Literal(LiteralKind::Ident { keyword: true }), "fn", 0, 6, 2),
            token(TokenKind::Add, "+", 0, 8, 1),
        ]
    );
}

#[test]
fn keyword_table_is_not_asked_for_other_tokens() {
    let always = |_: &String| true;
    let string = token(TokenKind::Literal(LiteralKind::String), "let", 2, 3, 5);
    let resolved = tree_lexer::scanner::resolve_keyword(string, always);
    assert_eq!(resolved, token(TokenKind::Literal(LiteralKind::String), "let", 2, 3, 5));
}
