//! Identifiers: a start character followed by continue characters, both as
//! Unicode defines them, with `_` as one more start character.
use vstd::prelude::*;
use unicode_xid::UnicodeXID;
use crate::cursor::{char_at, location_at, Cursor};
use crate::{LexError, LexErrorKind};

verus! {

/// Whether `c` has the Unicode property XID_Start, as the crate
/// `unicode-xid` decides it.
pub uninterp spec fn xid_start(c: char) -> bool;

/// Whether `c` has the Unicode property XID_Continue, as the crate
/// `unicode-xid` decides it.
pub uninterp spec fn xid_continue(c: char) -> bool;

/// Whether `c` is an ASCII letter.
pub open spec fn is_ascii_letter(c: char) -> bool {
    'a' <= c <= 'z' || 'A' <= c <= 'Z'
}

/// Whether `c` is an ASCII letter, an ASCII digit or `_`.
pub open spec fn is_ascii_word(c: char) -> bool {
    is_ascii_letter(c) || '0' <= c <= '9' || c == '_'
}

/// `UnicodeXID::is_xid_start` of `unicode-xid`, on a `char`. It decides by
/// the character alone: up to U+007F the ASCII letters, above it a search
/// in the crate's table of XID_Start ranges. Its answer is given the name
/// `xid_start`; of the ASCII characters the answer is stated, as the
/// crate's code has it. Nothing of this is proved.
#[verifier::external_body]
fn has_xid_start(c: char) -> (start: bool)
    ensures
        start == xid_start(c),
        c <= '\x7f' ==> start == is_ascii_letter(c),
{
    UnicodeXID::is_xid_start(c)
}

/// `UnicodeXID::is_xid_continue` of `unicode-xid`, on a `char`. It decides
/// by the character alone: up to U+007F the ASCII letters, the ASCII digits
/// and `_`, above it a search in the crate's table of XID_Continue ranges.
/// Its answer is given the name `xid_continue`; of the ASCII characters the
/// answer is stated, as the crate's code has it. Nothing of this is proved.
#[verifier::external_body]
fn has_xid_continue(c: char) -> (cont: bool)
    ensures
        cont == xid_continue(c),
        c <= '\x7f' ==> cont == is_ascii_word(c),
{
    UnicodeXID::is_xid_continue(c)
}

/// Whether an identifier may start with `c`.
pub open spec fn is_ident_start(c: char) -> bool {
    c == '_' || xid_start(c)
}

/// Where the run of identifier-continue characters that starts at index `i`
/// of `s` ends.
pub open spec fn ident_end(s: Seq<char>, i: int) -> int
    decreases s.len() - i,
{
    if 0 <= i < s.len() && xid_continue(s[i]) {
        ident_end(s, i + 1)
    } else {
        i
    }
}

/// A stretch of continue characters that ends at the text's end, or before
/// a character that is none, is the whole run.
pub proof fn lemma_ident_end(s: Seq<char>, from: int, to: int)
    requires
        0 <= from <= to <= s.len(),
        forall|i: int| from <= i < to ==> xid_continue(#[trigger] s[i]),
        to == s.len() || !xid_continue(s[to]),
    ensures
        ident_end(s, from) == to,
    decreases to - from,
{
    if from < to {
        lemma_ident_end(s, from + 1, to);
    }
}

/// The run of continue characters from index `i` ends at `i` or behind it,
/// inside the text.
pub proof fn lemma_ident_end_bounds(s: Seq<char>, i: int)
    requires
        0 <= i <= s.len(),
    ensures
        i <= ident_end(s, i) <= s.len(),
    decreases s.len() - i,
{
    if i < s.len() && xid_continue(s[i]) {
        lemma_ident_end_bounds(s, i + 1);
    }
}

/// Whether an identifier may start with `c`. Of the ASCII characters the
/// letters and `_` may.
pub fn is_xid_start(c: char) -> (start: bool)
    ensures
        start == is_ident_start(c),
        c <= '\x7f' ==> start == (c == '_' || is_ascii_letter(c)),
{
    c == '_' || has_xid_start(c)
}

/// Whether an identifier may go on with `c`. Of the ASCII characters the
/// letters, the digits and `_` may.
pub fn is_xid_continue(c: char) -> (cont: bool)
    ensures
        cont == xid_continue(c),
        c <= '\x7f' ==> cont == is_ascii_word(c),
{
    has_xid_continue(c)
}

impl Cursor {
    /// Reads an identifier: one start character and the continue characters
    /// that follow it. The name is the text as it stands in the source.
    /// Where the next character starts no identifier it is refused, and the
    /// cursor then stands behind it.
    pub fn eat_ident(&mut self) -> (ident: Result<String, LexError>)
        requires
            old(self).wf(),
        ensures
            final(self).wf(),
            final(self).source() == old(self).source(),
            final(self).mark() == old(self).mark(),
            ident is Ok <==> is_ident_start(
                char_at(old(self).source(), old(self).position()),
            ),
            old(self).position() < old(self).source().len() && is_ident_start(
                old(self).source()[old(self).position()],
            ) ==> {
                &&& ident matches Ok(name)
                &&& final(self).position() == ident_end(
                    old(self).source(),
                    old(self).position() + 1,
                )
                &&& name@ == old(self).source().subrange(
                    old(self).position(),
                    final(self).position(),
                )
            },
            !(old(self).position() < old(self).source().len() && is_ident_start(
                old(self).source()[old(self).position()],
            )) ==> {
                &&& ident == Err::<String, LexError>(
                    LexError {
                        kind: LexErrorKind::InvalidIdentifierStart,
                        location: location_at(old(self).source(), old(self).position()),
                    },
                )
                &&& final(self).position() == if old(self).position() < old(
                    self,
                ).source().len() {
                    old(self).position() + 1
                } else {
                    old(self).position()
                }
            },
    {
        let location = self.location();
        let first = self.peek_first();
        if !is_xid_start(first) {
            self.advance();
            return Err(LexError { kind: LexErrorKind::InvalidIdentifierStart, location });
        }
        let ghost source = self.source();
        let ghost start = self.position();
        self.advance();
        let mut ret = String::new();
        ret.push(first);
        let rest = self.eat_while(is_xid_continue);
        ret.append(rest.as_str());
        proof {
            lemma_ident_end(source, start + 1, self.position());
            assert(ret@ =~= source.subrange(start, self.position()));
        }
        Ok(ret)
    }
}

} // verus!
