//! The dispatch: which rule applies at the next character, and the token,
//! comment or failure that it gives.
use vstd::prelude::*;
use crate::comment::{
    block_comment_scan, lemma_block_comment_opener, lemma_block_comment_scan_bounds,
    lemma_line_end_bounds, line_end,
};
use crate::cursor::{char_at, location_at, Cursor};
use crate::ident::{ident_end, is_ident_start, is_xid_start, lemma_ident_end_bounds};
use crate::number::{
    digit_run_end, digits_start, is_digit, is_digit_of, lemma_digit_run_end_bounds, number_base,
    without_separators,
};
use crate::string::{lemma_scan_string_bounds, scan_string, string_inside, StringScan};
use crate::{Base, LexError, LexErrorKind, LiteralKind, Token, TokenKind};

verus! {

/// Whether `c` is whitespace: a space, a tab, a newline or a carriage
/// return.
pub open spec fn is_space(c: char) -> bool {
    c == ' ' || c == '\t' || c == '\n' || c == '\r'
}

/// Where the run of whitespace that starts at index `i` of `s` ends.
pub open spec fn whitespace_end(s: Seq<char>, i: int) -> int
    decreases s.len() - i,
{
    if 0 <= i < s.len() && is_space(s[i]) {
        whitespace_end(s, i + 1)
    } else {
        i
    }
}

/// A stretch of whitespace that ends at the text's end, or before a
/// character that is none, is the whole run.
pub proof fn lemma_whitespace_end(s: Seq<char>, from: int, to: int)
    requires
        0 <= from <= to <= s.len(),
        forall|i: int| from <= i < to ==> is_space(#[trigger] s[i]),
        to == s.len() || !is_space(s[to]),
    ensures
        whitespace_end(s, from) == to,
    decreases to - from,
{
    if from < to {
        lemma_whitespace_end(s, from + 1, to);
    }
}

/// The kind of the token that the single character `c` makes, if it makes
/// one.
pub open spec fn single_kind(c: char) -> Option<TokenKind> {
    if c == '+' {
        Some(TokenKind::Add)
    } else if c == '-' {
        Some(TokenKind::Minus)
    } else if c == '/' {
        Some(TokenKind::Divide)
    } else if c == '*' {
        Some(TokenKind::Multiply)
    } else if c == '%' {
        Some(TokenKind::Modulo)
    } else if c == '.' {
        Some(TokenKind::Dot)
    } else if c == ',' {
        Some(TokenKind::Comma)
    } else if c == ';' {
        Some(TokenKind::Semicolon)
    } else if c == ':' {
        Some(TokenKind::Colon)
    } else if c == '(' {
        Some(TokenKind::LeftParen)
    } else if c == ')' {
        Some(TokenKind::RightParen)
    } else if c == '{' {
        Some(TokenKind::LeftBrace)
    } else if c == '}' {
        Some(TokenKind::RightBrace)
    } else if c == '[' {
        Some(TokenKind::LeftBracket)
    } else if c == ']' {
        Some(TokenKind::RightBracket)
    } else if c == '<' {
        Some(TokenKind::LessThan)
    } else if c == '>' {
        Some(TokenKind::GreaterThan)
    } else if c == '&' {
        Some(TokenKind::BitwiseAnd)
    } else if c == '|' {
        Some(TokenKind::BitwiseOr)
    } else if c == '!' {
        Some(TokenKind::Not)
    } else if c == '=' {
        Some(TokenKind::Assign)
    } else {
        None
    }
}

/// The kind of the token that the two characters `a` and `b` make together,
/// if they make one.
pub open spec fn double_kind(a: char, b: char) -> Option<TokenKind> {
    if a == '<' && b == '=' {
        Some(TokenKind::LessThanEqual)
    } else if a == '>' && b == '=' {
        Some(TokenKind::GreaterThanEqual)
    } else if a == '=' && b == '=' {
        Some(TokenKind::Equal)
    } else if a == '!' && b == '=' {
        Some(TokenKind::NotEqual)
    } else if a == '&' && b == '&' {
        Some(TokenKind::And)
    } else if a == '|' && b == '|' {
        Some(TokenKind::Or)
    } else {
        None
    }
}

/// What one application of a rule gives.
pub enum Outcome {
    /// A token of this kind with this decoded text.
    Token { kind: TokenKind, literal: Seq<char> },
    /// A comment: no token.
    Comment,
    /// A failure of this kind.
    Error { error: LexErrorKind },
}

/// What one application of a rule gives, and the index behind the span that
/// it read.
pub struct Step {
    pub outcome: Outcome,
    pub end: int,
}

/// The number literal at index `i` of `s`.
pub open spec fn number_step(s: Seq<char>, i: int) -> Step {
    match number_base(s, i) {
        Some(base) => {
            let from = digits_start(base, i);
            let end = digit_run_end(s, from, base);
            Step {
                outcome: Outcome::Token {
                    kind: TokenKind::Literal(LiteralKind::Number(base)),
                    literal: without_separators(s.subrange(from, end)),
                },
                end,
            }
        },
        None => Step {
            outcome: Outcome::Error { error: LexErrorKind::InvalidNumberBase },
            end: if i + 2 <= s.len() {
                i + 2
            } else {
                i + 1
            },
        },
    }
}

/// The string whose opening quote stands at index `i` of `s`.
pub open spec fn string_step(s: Seq<char>, i: int) -> Step {
    match scan_string(s, string_inside(s, i)) {
        StringScan::Closed { text, end } => Step {
            outcome: Outcome::Token {
                kind: TokenKind::Literal(LiteralKind::String),
                literal: text,
            },
            end,
        },
        StringScan::BadEscape { end } => Step {
            outcome: Outcome::Error { error: LexErrorKind::InvalidEscapeSequence },
            end,
        },
        StringScan::Unterminated => Step {
            outcome: Outcome::Error { error: LexErrorKind::UnterminatedString },
            end: s.len() as int,
        },
    }
}

/// The block comment whose `/*` stands at index `i` of `s`.
pub open spec fn block_comment_step(s: Seq<char>, i: int) -> Step {
    let (end, depth) = block_comment_scan(s, i, 0);
    Step {
        outcome: if depth == 0 {
            Outcome::Comment
        } else {
            Outcome::Error { error: LexErrorKind::UnterminatedBlockComment }
        },
        end,
    }
}

/// What stands at index `i` of `s`, which is inside `s`. The rules, first
/// match first: a line comment, a block comment, a two-character operator,
/// a one-character operator or delimiter, a number, a string, a run of
/// whitespace, an identifier; any other character is refused.
pub open spec fn step_at(s: Seq<char>, i: int) -> Step
    recommends
        0 <= i < s.len(),
{
    let c = s[i];
    let d = char_at(s, i + 1);
    if c == '/' && d == '/' {
        Step { outcome: Outcome::Comment, end: line_end(s, i) }
    } else if c == '/' && d == '*' {
        block_comment_step(s, i)
    } else if double_kind(c, d) is Some {
        Step {
            outcome: Outcome::Token { kind: double_kind(c, d)->0, literal: s.subrange(i, i + 2) },
            end: i + 2,
        }
    } else if single_kind(c) is Some {
        Step {
            outcome: Outcome::Token { kind: single_kind(c)->0, literal: s.subrange(i, i + 1) },
            end: i + 1,
        }
    } else if is_digit_of(Base::Decimal, c) {
        number_step(s, i)
    } else if c == '"' {
        string_step(s, i)
    } else if is_space(c) {
        Step {
            outcome: Outcome::Token {
                kind: TokenKind::Whitespace,
                literal: s.subrange(i, whitespace_end(s, i)),
            },
            end: whitespace_end(s, i),
        }
    } else if is_ident_start(c) {
        Step {
            outcome: Outcome::Token {
                kind: TokenKind::Literal(LiteralKind::Ident { keyword: false }),
                literal: s.subrange(i, ident_end(s, i + 1)),
            },
            end: ident_end(s, i + 1),
        }
    } else {
        Step { outcome: Outcome::Error { error: LexErrorKind::UnrecognizedCharacter }, end: i + 1 }
    }
}

/// Whether `found` is what `step` describes for a span that starts at index
/// `start` of `s`: the token with its location and length, nothing for a
/// comment, or the failure with its location.
pub open spec fn step_matches(
    found: Result<Option<Token>, LexError>,
    s: Seq<char>,
    start: int,
    step: Step,
) -> bool {
    match step.outcome {
        Outcome::Token { kind, literal } => {
            &&& found matches Ok(Some(token))
            &&& token.kind == kind
            &&& token.literal@ == literal
            &&& token.location == location_at(s, start)
            &&& token.length == step.end - start
        },
        Outcome::Comment => found == Ok::<Option<Token>, LexError>(None),
        Outcome::Error { error } => found == Err::<Option<Token>, LexError>(
            LexError { kind: error, location: location_at(s, start) },
        ),
    }
}

/// Every rule reads at least one character and stays inside the text.
pub proof fn lemma_step_advances(s: Seq<char>, i: int)
    requires
        0 <= i < s.len(),
    ensures
        i < step_at(s, i).end <= s.len(),
{
    lemma_line_end_bounds(s, i + 1);
    lemma_whitespace_end_bounds(s, i + 1);
    lemma_ident_end_bounds(s, i + 1);
    lemma_scan_string_bounds(s, i + 1);
    lemma_digit_run_end_bounds(s, i + 1, Base::Decimal);
    if i + 2 <= s.len() {
        lemma_block_comment_scan_bounds(s, i + 2, 1);
        lemma_digit_run_end_bounds(s, i + 2, Base::Hexadecimal);
        lemma_digit_run_end_bounds(s, i + 2, Base::Binary);
    }
}

/// Where the run of whitespace from index `i` ends: at `i` or behind it,
/// inside the text.
pub proof fn lemma_whitespace_end_bounds(s: Seq<char>, i: int)
    requires
        0 <= i <= s.len(),
    ensures
        i <= whitespace_end(s, i) <= s.len(),
    decreases s.len() - i,
{
    if i < s.len() && is_space(s[i]) {
        lemma_whitespace_end_bounds(s, i + 1);
    }
}

/// A token or a failure that a scan meets, and the index at which its span
/// starts.
pub struct Found {
    pub start: int,
    pub step: Step,
}

/// The first token or failure at or behind index `i` of `s`, comments
/// passed over; `None` where the text ends before one.
pub open spec fn next_at(s: Seq<char>, i: int) -> Option<Found>
    decreases s.len() - i,
{
    if !(0 <= i < s.len()) {
        None
    } else {
        let step = step_at(s, i);
        if step.outcome is Comment && i < step.end <= s.len() {
            next_at(s, step.end)
        } else {
            Some(Found { start: i, step })
        }
    }
}

/// The tokens and failures of `s` from index `i` on, in order. After a
/// failure the scan goes on behind the span that failed.
pub open spec fn tokens_from(s: Seq<char>, i: int) -> Seq<Found>
    decreases s.len() - i,
{
    match next_at(s, i) {
        None => Seq::empty(),
        Some(found) => if i < found.step.end <= s.len() {
            seq![found] + tokens_from(s, found.step.end)
        } else {
            seq![found]
        },
    }
}

/// Whether `item` is the token or the failure that `found` describes in
/// `s`.
pub open spec fn item_matches(item: Result<Token, LexError>, s: Seq<char>, found: Found) -> bool {
    match found.step.outcome {
        Outcome::Token { kind, literal } => {
            &&& item matches Ok(token)
            &&& token.kind == kind
            &&& token.literal@ == literal
            &&& token.location == location_at(s, found.start)
            &&& token.length == found.step.end - found.start
        },
        Outcome::Comment => false,
        Outcome::Error { error } => item == Err::<Token, LexError>(
            LexError { kind: error, location: location_at(s, found.start) },
        ),
    }
}

/// Whether `items` are the tokens and failures of `s`, all of them and in
/// order.
pub open spec fn scanned_as(items: Seq<Result<Token, LexError>>, s: Seq<char>) -> bool {
    &&& items.len() == tokens_from(s, 0).len()
    &&& forall|k: int|
        0 <= k < items.len() ==> item_matches(#[trigger] items[k], s, tokens_from(s, 0)[k])
}

/// Whether `a` and `b` are the same failure, or tokens of the same kind,
/// text, location and length.
pub open spec fn same_item(a: Result<Token, LexError>, b: Result<Token, LexError>) -> bool {
    match (a, b) {
        (Ok(x), Ok(y)) => {
            &&& x.kind == y.kind
            &&& x.literal@ == y.literal@
            &&& x.location == y.location
            &&& x.length == y.length
        },
        (Err(x), Err(y)) => x == y,
        _ => false,
    }
}

/// Scanning is a function of the text: two scans of one text give the same
/// tokens and failures, one by one.
pub proof fn lemma_scan_is_deterministic(
    a: Seq<Result<Token, LexError>>,
    b: Seq<Result<Token, LexError>>,
    s: Seq<char>,
)
    requires
        scanned_as(a, s),
        scanned_as(b, s),
    ensures
        a.len() == b.len(),
        forall|k: int| 0 <= k < a.len() ==> same_item(#[trigger] a[k], b[k]),
{
    assert forall|k: int| 0 <= k < a.len() implies same_item(#[trigger] a[k], b[k]) by {
        assert(item_matches(a[k], s, tokens_from(s, 0)[k]));
        assert(item_matches(b[k], s, tokens_from(s, 0)[k]));
    }
}

/// Whether `c` is whitespace.
pub fn is_whitespace(c: char) -> (space: bool)
    ensures
        space == is_space(c),
{
    c == ' ' || c == '\t' || c == '\n' || c == '\r'
}

/// The kind of the token that the single character `c` makes, if it makes
/// one.
pub fn punctuation(c: char) -> (kind: Option<TokenKind>)
    ensures
        kind == single_kind(c),
{
    if c == '+' {
        Some(TokenKind::Add)
    } else if c == '-' {
        Some(TokenKind::Minus)
    } else if c == '/' {
        Some(TokenKind::Divide)
    } else if c == '*' {
        Some(TokenKind::Multiply)
    } else if c == '%' {
        Some(TokenKind::Modulo)
    } else if c == '.' {
        Some(TokenKind::Dot)
    } else if c == ',' {
        Some(TokenKind::Comma)
    } else if c == ';' {
        Some(TokenKind::Semicolon)
    } else if c == ':' {
        Some(TokenKind::Colon)
    } else if c == '(' {
        Some(TokenKind::LeftParen)
    } else if c == ')' {
        Some(TokenKind::RightParen)
    } else if c == '{' {
        Some(TokenKind::LeftBrace)
    } else if c == '}' {
        Some(TokenKind::RightBrace)
    } else if c == '[' {
        Some(TokenKind::LeftBracket)
    } else if c == ']' {
        Some(TokenKind::RightBracket)
    } else if c == '<' {
        Some(TokenKind::LessThan)
    } else if c == '>' {
        Some(TokenKind::GreaterThan)
    } else if c == '&' {
        Some(TokenKind::BitwiseAnd)
    } else if c == '|' {
        Some(TokenKind::BitwiseOr)
    } else if c == '!' {
        Some(TokenKind::Not)
    } else if c == '=' {
        Some(TokenKind::Assign)
    } else {
        None
    }
}

/// The kind of the token that the two characters `a` and `b` make together,
/// if they make one.
pub fn double_punctuation(a: char, b: char) -> (kind: Option<TokenKind>)
    ensures
        kind == double_kind(a, b),
{
    if a == '<' && b == '=' {
        Some(TokenKind::LessThanEqual)
    } else if a == '>' && b == '=' {
        Some(TokenKind::GreaterThanEqual)
    } else if a == '=' && b == '=' {
        Some(TokenKind::Equal)
    } else if a == '!' && b == '=' {
        Some(TokenKind::NotEqual)
    } else if a == '&' && b == '&' {
        Some(TokenKind::And)
    } else if a == '|' && b == '|' {
        Some(TokenKind::Or)
    } else {
        None
    }
}

impl Cursor {
    /// Applies the rule for the next character, which there must be: resets
    /// the consumed count, reads the span, and returns the token, `None` for
    /// a comment, or the failure.
    fn scan_step(&mut self) -> (found: Result<Option<Token>, LexError>)
        requires
            old(self).wf(),
            old(self).position() < old(self).source().len(),
        ensures
            final(self).wf(),
            final(self).source() == old(self).source(),
            final(self).mark() == old(self).position(),
            final(self).position() == step_at(old(self).source(), old(self).position()).end,
            step_matches(
                found,
                old(self).source(),
                old(self).position(),
                step_at(old(self).source(), old(self).position()),
            ),
    {
        self.reset_consumed();
        let ghost source = self.source();
        let ghost start = self.position();
        let location = self.location();
        let c = self.peek_first();
        let d = self.peek_second();
        if c == '/' && d == '/' {
            self.eat_comment();
            return Ok(None);
        }
        if c == '/' && d == '*' {
            self.advance();
            self.advance();
            proof {
                lemma_block_comment_opener(source, start);
            }
            return match self.eat_multiline_comment(location) {
                Ok(()) => Ok(None),
                Err(e) => Err(e),
            };
        }
        if let Some(kind) = double_punctuation(c, d) {
            let mut literal = String::new();
            literal.push(c);
            literal.push(d);
            self.advance();
            self.advance();
            assert(literal@ =~= source.subrange(start, start + 2));
            return Ok(Some(Token::new(kind, literal, location, self.consumed())));
        }
        if let Some(kind) = punctuation(c) {
            let mut literal = String::new();
            literal.push(c);
            self.advance();
            assert(literal@ =~= source.subrange(start, start + 1));
            return Ok(Some(Token::new(kind, literal, location, self.consumed())));
        }
        if is_digit(Base::Decimal, c) {
            return match self.eat_number() {
                Ok((literal, base)) => Ok(
                    Some(
                        Token::new(
                            TokenKind::Literal(LiteralKind::Number(base)),
                            literal,
                            location,
                            self.consumed(),
                        ),
                    ),
                ),
                Err(e) => Err(e),
            };
        }
        if c == '"' {
            return match self.eat_double_quoted_string() {
                Ok(literal) => Ok(
                    Some(
                        Token::new(
                            TokenKind::Literal(LiteralKind::String),
                            literal,
                            location,
                            self.consumed(),
                        ),
                    ),
                ),
                Err(e) => Err(e),
            };
        }
        if is_whitespace(c) {
            let literal = self.eat_while(is_whitespace);
            proof {
                lemma_whitespace_end(source, start, self.position());
            }
            return Ok(Some(Token::new(TokenKind::Whitespace, literal, location, self.consumed())));
        }
        if is_xid_start(c) {
            return match self.eat_ident() {
                Ok(literal) => Ok(
                    Some(
                        Token::new(
                            TokenKind::Literal(LiteralKind::Ident { keyword: false }),
                            literal,
                            location,
                            self.consumed(),
                        ),
                    ),
                ),
                Err(e) => Err(e),
            };
        }
        self.advance();
        Err(LexError { kind: LexErrorKind::UnrecognizedCharacter, location })
    }

    /// The next token or failure, comments passed over, or `None` where the
    /// text ends before one. The consumed count is reset where the span
    /// starts; at the end of the text it is zero.
    pub fn next_token(&mut self) -> (next: Option<Result<Token, LexError>>)
        requires
            old(self).wf(),
        ensures
            final(self).wf(),
            final(self).source() == old(self).source(),
            match next_at(old(self).source(), old(self).position()) {
                None => {
                    &&& next is None
                    &&& final(self).position() == final(self).source().len()
                    &&& final(self).mark() == final(self).position()
                },
                Some(found) => {
                    &&& next matches Some(item)
                    &&& item_matches(item, old(self).source(), found)
                    &&& final(self).mark() == found.start
                    &&& final(self).position() == found.step.end
                },
            },
    {
        loop
            invariant
                self.wf(),
                self.source() == old(self).source(),
                old(self).position() <= self.position(),
                next_at(self.source(), self.position()) == next_at(
                    old(self).source(),
                    old(self).position(),
                ),
            decreases self.source().len() - self.position(),
        {
            if self.is_eof() {
                self.reset_consumed();
                return None;
            }
            proof {
                lemma_step_advances(self.source(), self.position());
            }
            match self.scan_step() {
                Ok(Some(token)) => {
                    return Some(Ok(token));
                },
                Ok(None) => {},
                Err(e) => {
                    return Some(Err(e));
                },
            }
        }
    }
}

/// Settles whether an identifier is a keyword: asks `is_keyword` for the
/// identifier's text and records the answer in the token's kind. A token
/// that is no identifier is returned as it is, and `is_keyword` is not
/// asked.
pub fn resolve_keyword<K: Fn(&String) -> bool>(token: Token, is_keyword: K) -> (resolved: Token)
    requires
        forall|name: &String| call_requires(is_keyword, (name,)),
    ensures
        resolved.literal == token.literal,
        resolved.location == token.location,
        resolved.length == token.length,
        match token.kind {
            TokenKind::Literal(LiteralKind::Ident { keyword: _ }) => {
                &&& resolved.kind matches TokenKind::Literal(LiteralKind::Ident { keyword })
                &&& call_ensures(is_keyword, (&token.literal,), keyword)
            },
            _ => resolved.kind == token.kind,
        },
{
    match token.kind {
        TokenKind::Literal(LiteralKind::Ident { keyword: _ }) => {
            let keyword = is_keyword(&token.literal);
            Token {
                kind: TokenKind::Literal(LiteralKind::Ident { keyword }),
                literal: token.literal,
                location: token.location,
                length: token.length,
            }
        },
        _ => token,
    }
}

/// All tokens and failures of `input`, in order. After a failure the scan
/// goes on behind the span that failed.
pub fn tokenize(input: &str) -> (items: Vec<Result<Token, LexError>>)
    ensures
        scanned_as(items@, input@),
{
    let mut cursor = Cursor::new(input);
    let mut items: Vec<Result<Token, LexError>> = Vec::new();
    let ghost mut done: Seq<Found> = Seq::empty();
    loop
        invariant
            cursor.wf(),
            cursor.source() == input@,
            tokens_from(input@, 0) =~= done + tokens_from(input@, cursor.position()),
            items@.len() == done.len(),
            forall|k: int|
                0 <= k < items@.len() ==> item_matches(#[trigger] items@[k], input@, done[k]),
        decreases cursor.source().len() - cursor.position(),
    {
        let ghost before = cursor.position();
        proof {
            lemma_next_at_bounds(input@, before);
        }
        match cursor.next_token() {
            Some(item) => {
                proof {
                    let found = next_at(input@, before)->0;
                    assert(done + (seq![found] + tokens_from(input@, found.step.end)) =~= done.push(
                        found,
                    ) + tokens_from(input@, found.step.end));
                    done = done.push(found);
                }
                items.push(item);
            },
            None => {
                proof {
                    assert(done + Seq::<Found>::empty() =~= done);
                }
                return items;
            },
        }
    }
}

/// What a scan finds from index `i` on starts at `i` or behind it, and its
/// span is not empty and inside the text.
pub proof fn lemma_next_at_bounds(s: Seq<char>, i: int)
    requires
        0 <= i <= s.len(),
    ensures
        next_at(s, i) matches Some(found) ==> i <= found.start < found.step.end <= s.len() && !(
        found.step.outcome is Comment),
    decreases s.len() - i,
{
    if i < s.len() {
        lemma_step_advances(s, i);
        let step = step_at(s, i);
        if step.outcome is Comment {
            lemma_next_at_bounds(s, step.end);
        }
    }
}

/// How a scan goes on: a comment is passed over, and the tokens and
/// failures from index `i` on are the first one found and then those from
/// the end of its span on.
pub proof fn lemma_scan_goes_on(s: Seq<char>, i: int)
    requires
        0 <= i < s.len(),
    ensures
        step_at(s, i).outcome is Comment ==> next_at(s, i) == next_at(s, step_at(s, i).end),
        !(step_at(s, i).outcome is Comment) ==> next_at(s, i) == Some(
            Found { start: i, step: step_at(s, i) },
        ),
        match next_at(s, i) {
            None => tokens_from(s, i) == Seq::<Found>::empty(),
            Some(found) => tokens_from(s, i) == seq![found] + tokens_from(s, found.step.end),
        },
{
    lemma_step_advances(s, i);
    lemma_next_at_bounds(s, i);
}

} // verus!
