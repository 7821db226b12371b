//! Double-quoted strings and their escapes.
use vstd::prelude::*;
use crate::cursor::{location_at, Cursor};
use crate::{LexError, LexErrorKind};

verus! {

/// The character that an escape stands for, by the character behind the
/// backslash; `None` where that character names no escape.
pub open spec fn escape_value(c: char) -> Option<char> {
    if c == '\\' {
        Some('\\')
    } else if c == 'n' {
        Some('\n')
    } else if c == 'r' {
        Some('\r')
    } else if c == 't' {
        Some('\t')
    } else if c == '"' {
        Some('"')
    } else if c == '\'' {
        Some('\'')
    } else {
        None
    }
}

/// How the inside of a string reads.
pub enum StringScan {
    /// A closing quote was found: `text` is the decoded content and `end`
    /// the index behind the quote.
    Closed { text: Seq<char>, end: int },
    /// A backslash is followed by a character that names no escape; `end`
    /// is the index behind that character.
    BadEscape { end: int },
    /// The text ended before a closing quote.
    Unterminated,
}

/// `scan` with `prefix` put before its decoded content.
pub open spec fn with_prefix(prefix: Seq<char>, scan: StringScan) -> StringScan {
    match scan {
        StringScan::Closed { text, end } => StringScan::Closed { text: prefix + text, end },
        other => other,
    }
}

/// How the inside of a string reads from index `i` of `s`, which stands
/// behind the opening quote or further in.
pub open spec fn scan_string(s: Seq<char>, i: int) -> StringScan
    decreases s.len() - i,
{
    if !(0 <= i < s.len()) {
        StringScan::Unterminated
    } else if s[i] == '"' {
        StringScan::Closed { text: Seq::empty(), end: i + 1 }
    } else if s[i] == '\\' {
        if i + 1 >= s.len() {
            StringScan::Unterminated
        } else {
            match escape_value(s[i + 1]) {
                Some(c) => with_prefix(seq![c], scan_string(s, i + 2)),
                None => StringScan::BadEscape { end: i + 2 },
            }
        }
    } else {
        with_prefix(seq![s[i]], scan_string(s, i + 1))
    }
}

/// A string that closes, or fails at an escape, does so behind the index
/// from which it is read, inside the text.
pub proof fn lemma_scan_string_bounds(s: Seq<char>, i: int)
    requires
        0 <= i <= s.len(),
    ensures
        match scan_string(s, i) {
            StringScan::Closed { text, end } => i < end <= s.len(),
            StringScan::BadEscape { end } => i < end <= s.len(),
            StringScan::Unterminated => true,
        },
    decreases s.len() - i,
{
    if i < s.len() && s[i] != '"' {
        if s[i] == '\\' {
            if i + 1 < s.len() && escape_value(s[i + 1]) is Some {
                lemma_scan_string_bounds(s, i + 2);
            }
        } else {
            lemma_scan_string_bounds(s, i + 1);
        }
    }
}

/// A text that holds neither a quote nor a backslash from index `i` on ends
/// inside the string.
pub proof fn lemma_plain_text_is_unterminated(s: Seq<char>, i: int)
    requires
        0 <= i,
        forall|k: int| i <= k < s.len() ==> #[trigger] s[k] != '"' && s[k] != '\\',
    ensures
        scan_string(s, i) is Unterminated,
    decreases s.len() - i,
{
    if i < s.len() {
        lemma_plain_text_is_unterminated(s, i + 1);
    }
}

/// A string closes only at a quote: a text without one from index `i` on
/// never closes.
pub proof fn lemma_no_quote_never_closes(s: Seq<char>, i: int)
    requires
        0 <= i,
        forall|k: int| i <= k < s.len() ==> #[trigger] s[k] != '"',
    ensures
        !(scan_string(s, i) is Closed),
    decreases s.len() - i,
{
    if i < s.len() {
        if s[i] == '\\' {
            if i + 1 < s.len() {
                assert(s[i + 1] != '"');
                lemma_no_quote_never_closes(s, i + 2);
            }
        } else {
            lemma_no_quote_never_closes(s, i + 1);
        }
    }
}

/// Putting `acc` and then `c` before a scan is putting `acc` with `c` at
/// its end before it.
proof fn lemma_with_prefix_push(acc: Seq<char>, c: char, scan: StringScan)
    ensures
        with_prefix(acc, with_prefix(seq![c], scan)) == with_prefix(acc.push(c), scan),
{
    match scan {
        StringScan::Closed { text, end } => {
            assert(acc + (seq![c] + text) =~= acc.push(c) + text);
        },
        _ => {},
    }
}

/// The character that an escape stands for, by the character behind the
/// backslash.
pub fn unescape(c: char) -> (value: Option<char>)
    ensures
        value == escape_value(c),
{
    if c == '\\' {
        Some('\\')
    } else if c == 'n' {
        Some('\n')
    } else if c == 'r' {
        Some('\r')
    } else if c == 't' {
        Some('\t')
    } else if c == '"' {
        Some('"')
    } else if c == '\'' {
        Some('\'')
    } else {
        None
    }
}

/// The index behind the opening quote of a string that starts at index `i`
/// of `s`.
pub open spec fn string_inside(s: Seq<char>, i: int) -> int {
    if i < s.len() {
        i + 1
    } else {
        i
    }
}

impl Cursor {
    /// Reads a double-quoted string whose opening quote is the next
    /// character, through its closing quote, and returns the content with
    /// the escapes resolved. A bad escape is refused with the cursor behind
    /// it; a text that ends inside the string is refused with the cursor at
    /// its end.
    #[verifier::loop_isolation(false)]
    pub fn eat_double_quoted_string(&mut self) -> (string: Result<String, LexError>)
        requires
            old(self).wf(),
        ensures
            final(self).wf(),
            final(self).source() == old(self).source(),
            final(self).mark() == old(self).mark(),
            match scan_string(
                old(self).source(),
                string_inside(old(self).source(), old(self).position()),
            ) {
                StringScan::Closed { text, end } => {
                    &&& string matches Ok(content)
                    &&& content@ == text
                    &&& final(self).position() == end
                },
                StringScan::BadEscape { end } => {
                    &&& string == Err::<String, LexError>(
                        LexError {
                            kind: LexErrorKind::InvalidEscapeSequence,
                            location: location_at(old(self).source(), old(self).position()),
                        },
                    )
                    &&& final(self).position() == end
                },
                StringScan::Unterminated => {
                    &&& string == Err::<String, LexError>(
                        LexError {
                            kind: LexErrorKind::UnterminatedString,
                            location: location_at(old(self).source(), old(self).position()),
                        },
                    )
                    &&& final(self).position() == final(self).source().len()
                },
            },
    {
        let location = self.location();
        let mut ret = String::new();
        let ghost source = self.source();
        self.advance();
        let ghost inside = self.position();
        assert(with_prefix(ret@, scan_string(source, inside)) == scan_string(source, inside)) by {
            match scan_string(source, inside) {
                StringScan::Closed { text, end } => {
                    assert(ret@ + text =~= text);
                },
                _ => {},
            }
        }
        loop
            invariant
                self.moved_from(old(self), self.position()),
                source == old(self).source(),
                scan_string(source, inside) == with_prefix(
                    ret@,
                    scan_string(source, self.position()),
                ),
            decreases self.source().len() - self.position(),
        {
            if self.is_eof() {
                return Err(LexError { kind: LexErrorKind::UnterminatedString, location });
            }
            let c = self.peek_first();
            self.advance();
            if c == '"' {
                assert(ret@ + Seq::<char>::empty() =~= ret@);
                return Ok(ret);
            } else if c == '\\' {
                if self.is_eof() {
                    return Err(LexError { kind: LexErrorKind::UnterminatedString, location });
                }
                let escaped = self.peek_first();
                self.advance();
                match unescape(escaped) {
                    Some(value) => {
                        proof {
                            lemma_with_prefix_push(
                                ret@,
                                value,
                                scan_string(source, self.position()),
                            );
                        }
                        ret.push(value);
                    },
                    None => {
                        return Err(
                            LexError { kind: LexErrorKind::InvalidEscapeSequence, location },
                        );
                    },
                }
            } else {
                proof {
                    lemma_with_prefix_push(ret@, c, scan_string(source, self.position()));
                }
                ret.push(c);
            }
        }
    }
}

} // verus!
