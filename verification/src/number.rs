//! Number literals: runs of digits in base two, ten or sixteen, in which
//! separators may stand.
use vstd::prelude::*;
use crate::cursor::{char_at, location_at, Cursor};
use crate::{Base, LexError, LexErrorKind};

verus! {

/// The character that may stand between digits and is left out of the
/// literal.
pub const SEPARATOR: char = '_';

/// Whether `c` is a digit of `base`.
pub open spec fn is_digit_of(base: Base, c: char) -> bool {
    match base {
        Base::Binary => c == '0' || c == '1',
        Base::Decimal => '0' <= c <= '9',
        Base::Hexadecimal => '0' <= c <= '9' || 'a' <= c <= 'f' || 'A' <= c <= 'F',
    }
}

/// Where the run of digits of `base` and separators that starts at index
/// `i` of `s` ends: the index of the first character that is neither, or
/// the length of `s`.
pub open spec fn digit_run_end(s: Seq<char>, i: int, base: Base) -> int
    decreases s.len() - i,
{
    if 0 <= i < s.len() && (s[i] == SEPARATOR || is_digit_of(base, s[i])) {
        digit_run_end(s, i + 1, base)
    } else {
        i
    }
}

/// `s` with every separator left out.
pub open spec fn without_separators(s: Seq<char>) -> Seq<char> {
    s.filter(|c: char| c != SEPARATOR)
}

/// Leaving the separators out of a text that is one character longer: the
/// character is kept unless it is a separator.
pub proof fn lemma_without_separators_step(s: Seq<char>)
    requires
        s.len() > 0,
    ensures
        without_separators(s) == if s.last() == SEPARATOR {
            without_separators(s.drop_last())
        } else {
            without_separators(s.drop_last()).push(s.last())
        },
{
    reveal(Seq::filter);
}

/// A stretch of digits of `base` and separators that ends at the text's
/// end, or before a character that is neither, is the whole run.
pub proof fn lemma_digit_run_end(s: Seq<char>, from: int, to: int, base: Base)
    requires
        0 <= from <= to <= s.len(),
        forall|i: int|
            from <= i < to ==> #[trigger] s[i] == SEPARATOR || is_digit_of(base, s[i]),
        to == s.len() || !(s[to] == SEPARATOR || is_digit_of(base, s[to])),
    ensures
        digit_run_end(s, from, base) == to,
    decreases to - from,
{
    if from < to {
        lemma_digit_run_end(s, from + 1, to, base);
    }
}

/// The run of digits and separators from index `i` ends at `i` or behind
/// it, inside the text.
pub proof fn lemma_digit_run_end_bounds(s: Seq<char>, i: int, base: Base)
    requires
        0 <= i <= s.len(),
    ensures
        i <= digit_run_end(s, i, base) <= s.len(),
    decreases s.len() - i,
{
    if i < s.len() && (s[i] == SEPARATOR || is_digit_of(base, s[i])) {
        lemma_digit_run_end_bounds(s, i + 1, base);
    }
}

/// What is left of a text without its separators holds no separator, and
/// a text that holds none is left as it is.
pub proof fn lemma_without_separators(s: Seq<char>)
    ensures
        forall|i: int|
            0 <= i < without_separators(s).len() ==> #[trigger] without_separators(s)[i]
                != SEPARATOR,
        (forall|i: int| 0 <= i < s.len() ==> #[trigger] s[i] != SEPARATOR)
            ==> without_separators(s) == s,
    decreases s.len(),
{
    reveal(Seq::filter);
    if s.len() > 0 {
        lemma_without_separators(s.drop_last());
        lemma_without_separators_step(s);
        if forall|i: int| 0 <= i < s.len() ==> #[trigger] s[i] != SEPARATOR {
            assert forall|i: int| 0 <= i < s.drop_last().len() implies #[trigger] s.drop_last()[i]
                != SEPARATOR by {
                assert(s.drop_last()[i] == s[i]);
            }
            assert(s.drop_last().push(s.last()) =~= s);
        }
    } else {
        assert(without_separators(s) =~= s);
    }
}

/// The base that the start of a number literal at index `i` of `s`
/// announces, or `None` where a leading `0` is followed by a character that
/// announces none.
pub open spec fn number_base(s: Seq<char>, i: int) -> Option<Base> {
    let second = char_at(s, i + 1);
    if char_at(s, i) != '0' {
        Some(Base::Decimal)
    } else if second == 'x' || second == 'X' {
        Some(Base::Hexadecimal)
    } else if second == 'b' || second == 'B' {
        Some(Base::Binary)
    } else if is_digit_of(Base::Decimal, second) || second == SEPARATOR {
        Some(Base::Decimal)
    } else {
        None
    }
}

/// Where the digits of a number literal at index `i` start: behind the two
/// characters of a base prefix, or at `i` where there is none.
pub open spec fn digits_start(base: Base, i: int) -> int {
    match base {
        Base::Decimal => i,
        _ => i + 2,
    }
}

/// Whether `c` is a digit of `base`.
pub fn is_digit(base: Base, c: char) -> (digit: bool)
    ensures
        digit == is_digit_of(base, c),
{
    match base {
        Base::Binary => c == '0' || c == '1',
        Base::Decimal => '0' <= c && c <= '9',
        Base::Hexadecimal => ('0' <= c && c <= '9') || ('a' <= c && c <= 'f') || ('A' <= c && c
            <= 'F'),
    }
}

impl Cursor {
    /// Reads the run of digits of `base` and separators at the cursor and
    /// returns its digits.
    pub fn eat_digits(&mut self, base: Base) -> (digits: String)
        requires
            old(self).wf(),
        ensures
            final(self).moved_from(
                old(self),
                digit_run_end(old(self).source(), old(self).position(), base),
            ),
            digits@ == without_separators(
                old(self).source().subrange(old(self).position(), final(self).position()),
            ),
    {
        let mut ret = String::new();
        let ghost start = self.position();
        let ghost source = self.source();
        assert(without_separators(source.subrange(start, start)) =~= Seq::<char>::empty()) by {
            reveal(Seq::filter);
        }
        loop
            invariant
                self.moved_from(old(self), self.position()),
                start == old(self).position(),
                source == old(self).source(),
                0 <= start <= self.position(),
                digit_run_end(source, start, base) == digit_run_end(source, self.position(), base),
                ret@ == without_separators(source.subrange(start, self.position())),
            ensures
                self.position() == digit_run_end(source, start, base),
            decreases self.source().len() - self.position(),
        {
            let c = self.peek_first();
            if self.is_eof() {
                break;
            }
            let ghost before = self.position();
            proof {
                lemma_without_separators_step(source.subrange(start, before + 1));
            }
            if c == SEPARATOR {
                self.advance();
            } else if is_digit(base, c) {
                ret.push(c);
                self.advance();
            } else {
                break;
            }
            assert(source.subrange(start, before + 1).drop_last() =~= source.subrange(
                start,
                before,
            ));
        }
        ret
    }

    /// Reads decimal digits and separators; returns the digits.
    pub fn eat_decimal_digits(&mut self) -> (digits: String)
        requires
            old(self).wf(),
        ensures
            final(self).moved_from(
                old(self),
                digit_run_end(old(self).source(), old(self).position(), Base::Decimal),
            ),
            digits@ == without_separators(
                old(self).source().subrange(old(self).position(), final(self).position()),
            ),
    {
        self.eat_digits(Base::Decimal)
    }

    /// Reads hexadecimal digits of either case and separators; returns the
    /// digits.
    pub fn eat_hexadecimal_digits(&mut self) -> (digits: String)
        requires
            old(self).wf(),
        ensures
            final(self).moved_from(
                old(self),
                digit_run_end(old(self).source(), old(self).position(), Base::Hexadecimal),
            ),
            digits@ == without_separators(
                old(self).source().subrange(old(self).position(), final(self).position()),
            ),
    {
        self.eat_digits(Base::Hexadecimal)
    }

    /// Reads binary digits and separators; returns the digits.
    pub fn eat_binary_digits(&mut self) -> (digits: String)
        requires
            old(self).wf(),
        ensures
            final(self).moved_from(
                old(self),
                digit_run_end(old(self).source(), old(self).position(), Base::Binary),
            ),
            digits@ == without_separators(
                old(self).source().subrange(old(self).position(), final(self).position()),
            ),
    {
        self.eat_digits(Base::Binary)
    }

    /// Reads a number literal: a base prefix (`0x`, `0b`, in either case)
    /// where there is one, then the digits of that base. A leading `0`
    /// followed by anything else than a base letter, a decimal digit or a
    /// separator is refused, and the cursor then stands behind that
    /// character.
    pub fn eat_number(&mut self) -> (number: Result<(String, Base), LexError>)
        requires
            old(self).wf(),
        ensures
            match number_base(old(self).source(), old(self).position()) {
                Some(base) => {
                    let from = digits_start(base, old(self).position());
                    &&& number matches Ok(found)
                    &&& found.1 == base
                    &&& found.0@ == without_separators(
                        old(self).source().subrange(from, final(self).position()),
                    )
                    &&& final(self).moved_from(
                        old(self),
                        digit_run_end(old(self).source(), from, base),
                    )
                },
                None => {
                    &&& number == Err::<(String, Base), LexError>(
                        LexError {
                            kind: LexErrorKind::InvalidNumberBase,
                            location: location_at(old(self).source(), old(self).position()),
                        },
                    )
                    &&& final(self).moved_from(
                        old(self),
                        if old(self).position() + 2 <= old(self).source().len() {
                            old(self).position() + 2
                        } else {
                            old(self).position() + 1
                        },
                    )
                },
            },
    {
        let location = self.location();
        if self.peek_first() == '0' {
            let second = self.peek_second();
            if second == 'x' || second == 'X' {
                self.advance();
                self.advance();
                Ok((self.eat_hexadecimal_digits(), Base::Hexadecimal))
            } else if second == 'b' || second == 'B' {
                self.advance();
                self.advance();
                Ok((self.eat_binary_digits(), Base::Binary))
            } else if is_digit(Base::Decimal, second) || second == SEPARATOR {
                Ok((self.eat_decimal_digits(), Base::Decimal))
            } else {
                self.advance();
                self.advance();
                Err(LexError { kind: LexErrorKind::InvalidNumberBase, location })
            }
        } else {
            Ok((self.eat_decimal_digits(), Base::Decimal))
        }
    }
}

} // verus!
