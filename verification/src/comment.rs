//! Comments: to the end of the line, or between `/*` and `*/` with nesting.
use vstd::prelude::*;
use crate::cursor::Cursor;
use crate::{LexError, LexErrorKind, Location};

verus! {

/// The index of the first newline of `s` at or behind index `i`, or the
/// length of `s` where there is none.
pub open spec fn line_end(s: Seq<char>, i: int) -> int
    decreases s.len() - i,
{
    if 0 <= i < s.len() && s[i] != '\n' {
        line_end(s, i + 1)
    } else {
        i
    }
}

/// A stretch without a newline that ends at the text's end, or before a
/// newline, reaches the end of the line.
pub proof fn lemma_line_end(s: Seq<char>, from: int, to: int)
    requires
        0 <= from <= to <= s.len(),
        forall|i: int| from <= i < to ==> #[trigger] s[i] != '\n',
        to == s.len() || s[to] == '\n',
    ensures
        line_end(s, from) == to,
    decreases to - from,
{
    if from < to {
        lemma_line_end(s, from + 1, to);
    }
}

/// The end of the line lies at `i` or behind it, inside the text.
pub proof fn lemma_line_end_bounds(s: Seq<char>, i: int)
    requires
        0 <= i <= s.len(),
    ensures
        i <= line_end(s, i) <= s.len(),
    decreases s.len() - i,
{
    if i < s.len() && s[i] != '\n' {
        lemma_line_end_bounds(s, i + 1);
    }
}

/// Whether the two characters `a` and `b` stand at index `i` of `s`.
pub open spec fn pair_at(s: Seq<char>, i: int, a: char, b: char) -> bool {
    0 <= i && i + 1 < s.len() && s[i] == a && s[i + 1] == b
}

/// Where a scan for the end of a block comment stops, and the nesting depth
/// it stops with. The scan starts at index `i` of `s` with `depth` levels
/// open. `/*` opens a level and `*/` closes one; the scan stops behind the
/// `*/` that closes the last open level, with depth zero, or at the end of
/// the text, with the levels that are still open.
pub open spec fn block_comment_scan(s: Seq<char>, i: int, depth: int) -> (int, int)
    decreases s.len() - i,
{
    if !(0 <= i < s.len()) {
        (i, depth)
    } else if pair_at(s, i, '*', '/') {
        if depth == 1 {
            (i + 2, 0)
        } else {
            block_comment_scan(s, i + 2, depth - 1)
        }
    } else if pair_at(s, i, '/', '*') {
        block_comment_scan(s, i + 2, depth + 1)
    } else {
        block_comment_scan(s, i + 1, depth)
    }
}

/// A scan for the end of a block comment stops at its start or behind it,
/// inside the text.
pub proof fn lemma_block_comment_scan_bounds(s: Seq<char>, i: int, depth: int)
    requires
        0 <= i <= s.len(),
    ensures
        i <= block_comment_scan(s, i, depth).0 <= s.len(),
    decreases s.len() - i,
{
    if i < s.len() {
        if pair_at(s, i, '*', '/') {
            if depth != 1 {
                lemma_block_comment_scan_bounds(s, i + 2, depth - 1);
            }
        } else if pair_at(s, i, '/', '*') {
            lemma_block_comment_scan_bounds(s, i + 2, depth + 1);
        } else {
            lemma_block_comment_scan_bounds(s, i + 1, depth);
        }
    }
}

/// Reading a comment from its `/*` with no level open is reading what
/// follows the `/*` with one level open.
pub proof fn lemma_block_comment_opener(s: Seq<char>, i: int)
    requires
        pair_at(s, i, '/', '*'),
    ensures
        block_comment_scan(s, i, 0) == block_comment_scan(s, i + 2, 1),
{
}

/// A scan with a level open ends with no level open only behind a `*/`;
/// otherwise it ends at the end of the text with a level still open.
pub proof fn lemma_block_comment_closes_at_marker(s: Seq<char>, i: int, depth: int)
    requires
        0 <= i <= s.len(),
        depth >= 1,
    ensures
        ({
            let (end, left) = block_comment_scan(s, i, depth);
            if left == 0 {
                i + 2 <= end && pair_at(s, end - 2, '*', '/')
            } else {
                left >= 1 && end == s.len()
            }
        }),
    decreases s.len() - i,
{
    if i < s.len() {
        if pair_at(s, i, '*', '/') {
            if depth != 1 {
                lemma_block_comment_closes_at_marker(s, i + 2, depth - 1);
            }
        } else if pair_at(s, i, '/', '*') {
            lemma_block_comment_closes_at_marker(s, i + 2, depth + 1);
        } else {
            lemma_block_comment_closes_at_marker(s, i + 1, depth);
        }
    }
}

impl Cursor {
    /// Reads a line comment: everything before the next newline, which
    /// stays unread, or the rest of the text where there is none.
    pub fn eat_comment(&mut self)
        requires
            old(self).wf(),
        ensures
            final(self).moved_from(old(self), line_end(old(self).source(), old(self).position())),
    {
        let ghost source = self.source();
        let ghost start = self.position();
        let not_newline = |c: char| -> (go_on: bool)
            ensures
                go_on == (c != '\n'),
            { c != '\n' };
        let _ = self.eat_while(not_newline);
        proof {
            lemma_line_end(source, start, self.position());
        }
    }

    /// Reads the rest of a block comment whose opening `/*` has just been
    /// read, through the `*/` that closes it; comments inside it nest. One
    /// level is open at entry; each `/*` opens one more and each `*/` closes
    /// one, and the scan stops behind the `*/` that closes the last. Where
    /// the text ends first, the comment is refused with `start`, the
    /// location of its `/*`, and the cursor stands at the end of the text.
    #[verifier::loop_isolation(false)]
    pub fn eat_multiline_comment(&mut self, start: Location) -> (closed: Result<(), LexError>)
        requires
            old(self).wf(),
        ensures
            final(self).moved_from(
                old(self),
                block_comment_scan(old(self).source(), old(self).position(), 1).0,
            ),
            block_comment_scan(old(self).source(), old(self).position(), 1).1 == 0 ==> closed
                == Ok::<(), LexError>(()),
            block_comment_scan(old(self).source(), old(self).position(), 1).1 != 0 ==> {
                &&& closed == Err::<(), LexError>(
                    LexError { kind: LexErrorKind::UnterminatedBlockComment, location: start },
                )
                &&& final(self).position() == final(self).source().len()
            },
    {
        let ghost source = self.source();
        let ghost entry = self.position();
        let mut depth: usize = 1;
        loop
            invariant
                self.moved_from(old(self), self.position()),
                source == old(self).source(),
                entry == old(self).position(),
                0 <= entry,
                1 <= depth,
                depth - 1 <= self.position() - entry,
                block_comment_scan(source, entry, 1) == block_comment_scan(
                    source,
                    self.position(),
                    depth as int,
                ),
            decreases self.source().len() - self.position(),
        {
            if self.is_eof() {
                return Err(
                    LexError { kind: LexErrorKind::UnterminatedBlockComment, location: start },
                );
            }
            let c = self.peek_first();
            self.advance();
            if self.is_eof() {
            } else if c == '*' && self.peek_first() == '/' {
                self.advance();
                depth -= 1;
                if depth == 0 {
                    return Ok(());
                }
            } else if c == '/' && self.peek_first() == '*' {
                self.advance();
                depth += 1;
            }
        }
    }
}

} // verus!
