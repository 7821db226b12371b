//! The cursor: look-ahead and single-character advancement over a source
//! text, with line and column bookkeeping.
use vstd::prelude::*;
use vstd::std_specs::iter::IteratorSpec;
use crate::Location;

verus! {

/// What look-ahead returns where the text has no character. A source text
/// is not meant to hold this character; where it does, look-ahead cannot
/// tell it from the end, and `is_eof` can.
pub const EOF: char = '\0';

/// Number of newline characters in `s`.
pub open spec fn newline_count(s: Seq<char>) -> nat
    decreases s.len(),
{
    if s.len() == 0 {
        0
    } else if s.last() == '\n' {
        newline_count(s.drop_last()) + 1
    } else {
        newline_count(s.drop_last())
    }
}

/// Number of characters of `s` that follow its last newline.
pub open spec fn column_after(s: Seq<char>) -> nat
    decreases s.len(),
{
    if s.len() == 0 {
        0
    } else if s.last() == '\n' {
        0
    } else {
        column_after(s.drop_last()) + 1
    }
}

/// Line and column can never exceed the number of characters read.
pub proof fn lemma_location_bound(s: Seq<char>)
    ensures
        newline_count(s) + column_after(s) <= s.len(),
    decreases s.len(),
{
    if s.len() > 0 {
        lemma_location_bound(s.drop_last());
    }
}

/// Passing a newline starts the next line at column zero; passing any other
/// character moves one column on in the same line.
pub proof fn lemma_passing_a_character(s: Seq<char>, i: int)
    requires
        0 <= i < s.len(),
    ensures
        s[i] == '\n' ==> newline_count(s.take(i + 1)) == newline_count(s.take(i)) + 1
            && column_after(s.take(i + 1)) == 0,
        s[i] != '\n' ==> newline_count(s.take(i + 1)) == newline_count(s.take(i))
            && column_after(s.take(i + 1)) == column_after(s.take(i)) + 1,
{
    assert(s.take(i + 1).drop_last() =~= s.take(i));
}

/// The location of the character at index `i` of `s`, as far as the counters
/// can hold it.
pub open spec fn location_at(s: Seq<char>, i: int) -> Location {
    Location {
        line: newline_count(s.take(i)) as usize,
        column: column_after(s.take(i)) as usize,
    }
}

/// The character of `s` at index `i`, or `EOF` where there is none.
pub open spec fn char_at(s: Seq<char>, i: int) -> char {
    if 0 <= i < s.len() {
        s[i]
    } else {
        EOF
    }
}

/// `String::push` of std, which appends the character to the end of the
/// string: the text afterwards is the text before with `c` behind it. This
/// is believed, not proved.
pub assume_specification[ std::string::String::push ](s: &mut std::string::String, c: char)
    ensures
        final(s)@ == old(s)@.push(c),
;

/// A source text together with a scan position in it.
///
/// The position only moves forward. `mark` is the position at which the
/// count of consumed characters was last reset; `line` and `column` are the
/// location of the next unread character.
pub struct Cursor {
    chars: Vec<char>,
    pos: usize,
    mark: usize,
    line: usize,
    column: usize,
}

impl Cursor {
    /// The whole source text.
    pub closed spec fn source(&self) -> Seq<char> {
        self.chars@
    }

    /// Number of characters read so far.
    pub closed spec fn position(&self) -> int {
        self.pos as int
    }

    /// The position at which the consumed count was last reset.
    pub closed spec fn mark(&self) -> int {
        self.mark as int
    }

    /// The line counter.
    pub closed spec fn line(&self) -> nat {
        self.line as nat
    }

    /// The column counter.
    pub closed spec fn column(&self) -> nat {
        self.column as nat
    }

    /// The text that has been read.
    pub open spec fn passed(&self) -> Seq<char> {
        self.source().take(self.position())
    }

    /// The position lies inside the text and after the mark, and the two
    /// counters give the location of the next unread character.
    pub open spec fn wf(&self) -> bool {
        &&& 0 <= self.mark() <= self.position() <= self.source().len() <= usize::MAX
        &&& self.line() == newline_count(self.passed())
        &&& self.column() == column_after(self.passed())
    }

    /// `self` is `before` moved forward to position `to`: same text, same
    /// mark, and well formed again.
    pub open spec fn moved_from(&self, before: &Cursor, to: int) -> bool {
        &&& self.wf()
        &&& self.source() == before.source()
        &&& self.mark() == before.mark()
        &&& self.position() == to
    }

    /// A cursor at the start of `input`.
    pub fn new(input: &str) -> (cursor: Cursor)
        ensures
            cursor.wf(),
            cursor.source() == input@,
            cursor.position() == 0,
            cursor.mark() == 0,
            cursor.line() == 0,
            cursor.column() == 0,
    {
        let chars = collect_chars(input);
        assert(chars@.len() == chars.len());
        let cursor = Cursor { chars, pos: 0, mark: 0, line: 0, column: 0 };
        assert(cursor.passed() =~= Seq::<char>::empty());
        cursor
    }

    /// How many characters have been read since the last reset.
    pub fn consumed(&self) -> (n: usize)
        requires
            self.mark() <= self.position(),
        ensures
            n == self.position() - self.mark(),
    {
        self.pos - self.mark
    }

    /// Starts the consumed count again from the current position.
    pub fn reset_consumed(&mut self)
        requires
            old(self).wf(),
        ensures
            final(self).wf(),
            final(self).source() == old(self).source(),
            final(self).position() == old(self).position(),
            final(self).mark() == old(self).position(),
    {
        self.mark = self.pos;
    }

    /// Sets the column counter to zero and touches nothing else. A step of
    /// `advance`: alone it leaves the counters out of step with the text.
    pub fn reset_column(&mut self)
        ensures
            final(self).column() == 0,
            final(self).line() == old(self).line(),
            final(self).source() == old(self).source(),
            final(self).position() == old(self).position(),
            final(self).mark() == old(self).mark(),
    {
        self.column = 0;
    }

    /// Adds one to the column counter and touches nothing else. A step of
    /// `advance`: alone it leaves the counters out of step with the text.
    pub fn increment_column(&mut self)
        requires
            old(self).column() < usize::MAX,
        ensures
            final(self).column() == old(self).column() + 1,
            final(self).line() == old(self).line(),
            final(self).source() == old(self).source(),
            final(self).position() == old(self).position(),
            final(self).mark() == old(self).mark(),
    {
        self.column += 1;
    }

    /// Adds one to the line counter and touches nothing else. A step of
    /// `advance`: alone it leaves the counters out of step with the text.
    pub fn increment_line(&mut self)
        requires
            old(self).line() < usize::MAX,
        ensures
            final(self).line() == old(self).line() + 1,
            final(self).column() == old(self).column(),
            final(self).source() == old(self).source(),
            final(self).position() == old(self).position(),
            final(self).mark() == old(self).mark(),
    {
        self.line += 1;
    }

    /// What the two counters hold: on a well-formed cursor, the location of
    /// the next unread character.
    pub fn location(&self) -> (loc: Location)
        ensures
            loc.line == self.line(),
            loc.column == self.column(),
            self.wf() ==> loc == location_at(self.source(), self.position()),
    {
        Location { line: self.line, column: self.column }
    }

    /// Whether the whole text has been read.
    pub fn is_eof(&self) -> (end: bool)
        ensures
            end == (self.position() == self.source().len()),
    {
        self.pos == self.chars.len()
    }

    /// The next unread character, or `EOF` where there is none. Reads
    /// nothing.
    pub fn peek_first(&self) -> (c: char)
        ensures
            c == char_at(self.source(), self.position()),
    {
        if self.pos < self.chars.len() {
            self.chars[self.pos]
        } else {
            EOF
        }
    }

    /// The character after the next unread one, or `EOF` where there is
    /// none. Reads nothing.
    pub fn peek_second(&self) -> (c: char)
        ensures
            c == char_at(self.source(), self.position() + 1),
    {
        if self.pos < self.chars.len() && self.pos + 1 < self.chars.len() {
            self.chars[self.pos + 1]
        } else {
            EOF
        }
    }

    /// Reads one character and returns it, or returns `None` and changes
    /// nothing where the text is exhausted. A newline starts a new line at
    /// column zero; any other character moves one column on.
    pub fn advance(&mut self) -> (read: Option<char>)
        requires
            old(self).wf(),
        ensures
            old(self).position() < old(self).source().len() ==> {
                &&& read == Some(old(self).source()[old(self).position()])
                &&& final(self).moved_from(old(self), old(self).position() + 1)
            },
            old(self).position() == old(self).source().len() ==> {
                &&& read is None
                &&& *final(self) == *old(self)
            },
            read == Some('\n') ==> {
                &&& final(self).line() == old(self).line() + 1
                &&& final(self).column() == 0
            },
            read is Some && read != Some('\n') ==> {
                &&& final(self).line() == old(self).line()
                &&& final(self).column() == old(self).column() + 1
            },
    {
        if self.pos < self.chars.len() {
            let c = self.chars[self.pos];
            proof {
                lemma_location_bound(self.passed());
                lemma_passing_a_character(self.source(), self.position());
            }
            self.pos += 1;
            if c == '\n' {
                self.reset_column();
                self.increment_line();
            } else {
                self.increment_column();
            }
            Some(c)
        } else {
            None
        }
    }

    /// Reads characters for as long as `predicate` accepts the next one and
    /// the text lasts, and returns what was read.
    pub fn eat_while<F: Fn(char) -> bool>(&mut self, predicate: F) -> (eaten: String)
        requires
            old(self).wf(),
            forall|c: char| call_requires(predicate, (c,)),
        ensures
            final(self).moved_from(old(self), old(self).position() + eaten@.len()),
            eaten@ == old(self).source().subrange(
                old(self).position(),
                final(self).position(),
            ),
            forall|i: int|
                old(self).position() <= i < final(self).position() ==> call_ensures(
                    predicate,
                    (#[trigger] old(self).source()[i],),
                    true,
                ),
            final(self).position() == final(self).source().len() || call_ensures(
                predicate,
                (final(self).source()[final(self).position()],),
                false,
            ),
    {
        let mut ret = String::new();
        let ghost start = self.position();
        let ghost source = self.source();
        while !self.is_eof()
            invariant
                self.moved_from(old(self), start + ret@.len()),
                start == old(self).position(),
                source == old(self).source(),
                ret@ == source.subrange(start, self.position()),
                forall|c: char| call_requires(predicate, (c,)),
                forall|i: int|
                    start <= i < self.position() ==> call_ensures(
                        predicate,
                        (#[trigger] source[i],),
                        true,
                    ),
            ensures
                self.position() == source.len() || call_ensures(
                    predicate,
                    (source[self.position()],),
                    false,
                ),
            decreases self.source().len() - self.position(),
        {
            let c = self.peek_first();
            if !predicate(c) {
                break;
            }
            self.advance();
            ret.push(c);
            assert(ret@ =~= source.subrange(start, self.position()));
        }
        ret
    }
}

/// The characters of `input`, in order.
fn collect_chars(input: &str) -> (chars: Vec<char>)
    ensures
        chars@ == input@,
{
    let mut it = input.chars();
    let mut chars: Vec<char> = Vec::new();
    loop
        invariant
            chars@ + it.remaining() == input@,
            it.decrease() is Some,
        decreases it.decrease()->0,
    {
        match it.next() {
            Some(c) => {
                chars.push(c);
            },
            None => {
                return chars;
            },
        }
    }
}

} // verus!
