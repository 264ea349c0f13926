//! Seekable, mutable text store addressed by character offsets.
//!
//! Content is one string; logical lines are LF-separated, and each LF is
//! counted in the span of the line it terminates.

use vstd::prelude::*;
use crate::buffer::{spec_min, BufferError, ViewWindow};

verus! {

/// The position of the first `'\n'` at or after `p`, or the length of `s`
/// when there is none.
pub open spec fn next_nl(s: Seq<char>, p: int) -> int
    decreases s.len() - p,
{
    if !(0 <= p < s.len()) {
        s.len() as int
    } else if s[p] == '\n' {
        p
    } else {
        next_nl(s, p + 1)
    }
}

/// `next_nl` stays between `p` and the end, and it points at an LF unless
/// it is the end.
pub proof fn lemma_next_nl_bounds(s: Seq<char>, p: int)
    requires
        0 <= p <= s.len(),
    ensures
        p <= next_nl(s, p) <= s.len(),
        next_nl(s, p) < s.len() ==> s[next_nl(s, p)] == '\n',
    decreases s.len() - p,
{
    if p < s.len() && s[p] != '\n' {
        lemma_next_nl_bounds(s, p + 1);
    }
}

/// How many lines start at or after position `p` (a line start).
pub open spec fn line_count_from(s: Seq<char>, p: int) -> int
    decreases s.len() - p + 1,
    via line_count_from_decreases
{
    if !(0 <= p < s.len()) {
        0
    } else {
        1 + line_count_from(s, next_nl(s, p) + 1)
    }
}

#[via_fn]
proof fn line_count_from_decreases(s: Seq<char>, p: int) {
    if 0 <= p < s.len() {
        lemma_next_nl_bounds(s, p);
    }
}

/// The number of logical lines of `s`.
pub open spec fn line_count_of(s: Seq<char>) -> int {
    line_count_from(s, 0)
}

/// The position where line `n` starts (one past the `n`-th LF).
pub open spec fn line_start(s: Seq<char>, n: int) -> int
    decreases n,
{
    if n <= 0 {
        0
    } else {
        next_nl(s, line_start(s, n - 1)) + 1
    }
}

/// The content of line `n`, without its terminating LF.
pub open spec fn spec_line_at(s: Seq<char>, n: int) -> Seq<char> {
    s.subrange(line_start(s, n), next_nl(s, line_start(s, n)))
}

/// The line number that position `pos` falls in, scanning from line `n`;
/// positions past the last line fall back to the last line.
pub open spec fn byte_line_from(s: Seq<char>, pos: int, n: int) -> int
    decreases line_count_of(s) - n,
{
    if n < 0 || n >= line_count_of(s) {
        if line_count_of(s) <= 0 {
            0
        } else {
            line_count_of(s) - 1
        }
    } else if next_nl(s, line_start(s, n)) >= pos {
        n
    } else {
        byte_line_from(s, pos, n + 1)
    }
}

/// The line number that position `pos` falls in; an LF belongs to the line
/// it terminates.
pub open spec fn spec_byte_to_line(s: Seq<char>, pos: int) -> int {
    byte_line_from(s, pos, 0)
}

/// Counting from line `n`: exactly `line_count_of(s) - n` lines remain.
pub proof fn lemma_line_start_count(s: Seq<char>, n: int)
    requires
        0 <= n <= line_count_of(s),
    ensures
        0 <= line_start(s, n),
        line_count_from(s, line_start(s, n)) == line_count_of(s) - n,
        n < line_count_of(s) ==> line_start(s, n) < s.len(),
    decreases n,
{
    if n == 0 {
    } else {
        lemma_line_start_count(s, n - 1);
        let p = line_start(s, n - 1);
        lemma_next_nl_bounds(s, p);
    }
}

/// Inserting `t` at `p` and then deleting the same span restores the text.
pub proof fn lemma_insert_delete_inverse(s: Seq<char>, p: int, t: Seq<char>)
    requires
        0 <= p <= s.len(),
    ensures
        ({
            let grown = s.subrange(0, p) + t + s.subrange(p, s.len() as int);
            grown.subrange(0, p) + grown.subrange(p + t.len(), grown.len() as int) == s
        }),
{
    let grown = s.subrange(0, p) + t + s.subrange(p, s.len() as int);
    assert(grown.subrange(0, p) =~= s.subrange(0, p));
    assert(grown.subrange(p + t.len(), grown.len() as int) =~= s.subrange(p, s.len() as int));
    assert(grown.subrange(0, p) + grown.subrange(p + t.len(), grown.len() as int) =~= s);
}

/// Mutable text buffer addressed by character offsets.
#[derive(Debug, Clone)]
pub struct RopeBuffer {
    /// The whole content as one string.
    content: String,
}

/// The first `'\n'` at or after `p`, or the length of `s` when none is left.
fn find_nl(s: &str, p: usize) -> (r: usize)
    requires
        p <= s@.len(),
        s@.len() <= usize::MAX,
    ensures
        r == next_nl(s@, p as int),
        p <= r <= s@.len(),
{
    let len = s.unicode_len();
    let mut i = p;
    while i < len
        invariant
            p <= i <= len,
            len == s@.len(),
            next_nl(s@, p as int) == next_nl(s@, i as int),
        decreases len - i,
    {
        if s.get_char(i) == '\n' {
            proof {
                lemma_next_nl_bounds(s@, p as int);
            }
            return i;
        }
        i = i + 1;
    }
    i
}

impl RopeBuffer {
    /// The content as a sequence of characters.
    pub closed spec fn text(&self) -> Seq<char> {
        self.content@
    }

    /// Create an empty buffer.
    pub fn new() -> (r: RopeBuffer)
        ensures
            r.text() == Seq::<char>::empty(),
    {
        RopeBuffer { content: String::new() }
    }

    /// Create a buffer holding `content`.
    pub fn with_content(content: &str) -> (r: RopeBuffer)
        ensures
            r.text() == content@,
    {
        RopeBuffer { content: String::from_str(content) }
    }

    /// The length in characters.
    pub fn len(&self) -> (r: usize)
        ensures
            r == self.text().len(),
    {
        self.content.as_str().unicode_len()
    }

    /// Whether the buffer holds no text.
    pub fn is_empty(&self) -> (r: bool)
        ensures
            r == (self.text().len() == 0),
    {
        self.content.as_str().is_empty()
    }

    /// Insert `text` at position `pos`; `pos` may be anywhere up to and
    /// including the end, anything further is out of bounds.
    pub fn insert(&mut self, pos: usize, text: &str) -> (r: Result<(), BufferError>)
        ensures
            if pos <= old(self).text().len() {
                &&& r is Ok
                &&& final(self).text() == old(self).text().subrange(0, pos as int) + text@
                    + old(self).text().subrange(pos as int, old(self).text().len() as int)
            } else {
                &&& r matches Err(BufferError::OutOfBounds(p)) && p == pos
                &&& final(self).text() == old(self).text()
            },
    {
        let len = self.content.as_str().unicode_len();
        if pos > len {
            return Err(BufferError::OutOfBounds(pos));
        }
        let pre = String::from_str(self.content.as_str().substring_char(0, pos));
        let suf = String::from_str(self.content.as_str().substring_char(pos, len));
        let mut grown = pre;
        grown.append(text);
        grown.append(suf.as_str());
        self.content = grown;
        Ok(())
    }

    /// Delete the characters in `range`; the range must be ordered and end
    /// within the content.
    pub fn delete(&mut self, range: std::ops::Range<usize>) -> (r: Result<(), BufferError>)
        ensures
            if range.start > range.end {
                &&& r matches Err(BufferError::InvalidRange(rg)) && rg == range
                &&& final(self).text() == old(self).text()
            } else if range.end > old(self).text().len() {
                &&& r matches Err(BufferError::OutOfBounds(p)) && p == range.end
                &&& final(self).text() == old(self).text()
            } else {
                &&& r is Ok
                &&& final(self).text() == old(self).text().subrange(0, range.start as int)
                    + old(self).text().subrange(
                        range.end as int,
                        old(self).text().len() as int,
                    )
            },
    {
        let len = self.content.as_str().unicode_len();
        if range.start > range.end {
            return Err(BufferError::InvalidRange(range));
        }
        if range.end > len {
            return Err(BufferError::OutOfBounds(range.end));
        }
        let pre = String::from_str(self.content.as_str().substring_char(0, range.start));
        let suf = String::from_str(self.content.as_str().substring_char(range.end, len));
        let mut kept = pre;
        kept.append(suf.as_str());
        self.content = kept;
        Ok(())
    }

    /// Replace the characters in `range` with `text`: a delete followed by
    /// an insert at the range's start.
    pub fn replace(&mut self, range: std::ops::Range<usize>, text: &str) -> (r: Result<
        (),
        BufferError,
    >)
        ensures
            if range.start > range.end {
                &&& r matches Err(BufferError::InvalidRange(rg)) && rg == range
                &&& final(self).text() == old(self).text()
            } else if range.end > old(self).text().len() {
                &&& r matches Err(BufferError::OutOfBounds(p)) && p == range.end
                &&& final(self).text() == old(self).text()
            } else {
                &&& r is Ok
                &&& final(self).text() == old(self).text().subrange(0, range.start as int)
                    + text@ + old(self).text().subrange(
                        range.end as int,
                        old(self).text().len() as int,
                    )
            },
    {
        let start = range.start;
        match self.delete(range) {
            Ok(_) => {},
            Err(e) => {
                return Err(e);
            },
        }
        let ghost shrunk = self.text();
        match self.insert(start, text) {
            Ok(_) => {},
            Err(e) => {
                return Err(e);
            },
        }
        proof {
            assert(self.text() =~= old(self).text().subrange(0, start as int) + text@
                + old(self).text().subrange(
                    range.end as int,
                    old(self).text().len() as int,
                ));
        }
        Ok(())
    }

    /// The characters in `range`, borrowed from the buffer.
    pub fn slice(&self, range: std::ops::Range<usize>) -> (r: Result<&str, BufferError>)
        ensures
            if range.start > range.end {
                r matches Err(BufferError::InvalidRange(rg)) && rg == range
            } else if range.end > self.text().len() {
                r matches Err(BufferError::OutOfBounds(p)) && p == range.end
            } else {
                r matches Ok(s) && s@ == self.text().subrange(
                    range.start as int,
                    range.end as int,
                )
            },
    {
        let len = self.content.as_str().unicode_len();
        if range.start > range.end {
            return Err(BufferError::InvalidRange(range));
        }
        if range.end > len {
            return Err(BufferError::OutOfBounds(range.end));
        }
        Ok(self.content.as_str().substring_char(range.start, range.end))
    }

    /// The whole content.
    pub fn content(&self) -> (r: &str)
        ensures
            r@ == self.text(),
    {
        self.content.as_str()
    }

    /// The number of logical lines; empty content has none.
    pub fn line_count(&self) -> (r: usize)
        ensures
            r == line_count_of(self.text()),
    {
        let s = self.content.as_str();
        let len = s.unicode_len();
        let mut p: usize = 0;
        let mut c: usize = 0;
        while p < len
            invariant
                c <= p <= len,
                len == s@.len(),
                c + line_count_from(s@, p as int) == line_count_of(s@),
            decreases len - p,
        {
            let nl = find_nl(s, p);
            proof {
                lemma_next_nl_bounds(s@, p as int);
                assert(line_count_from(s@, p as int)
                    == 1 + line_count_from(s@, next_nl(s@, p as int) + 1));
                if nl >= len {
                    assert(line_count_from(s@, (nl as int) + 1) == 0);
                    assert(line_count_from(s@, len as int) == 0);
                }
            }
            c = c + 1;
            if nl < len {
                p = nl + 1;
            } else {
                p = len;
            }
        }
        c
    }

    /// The start position of line `n`, walked line by line.
    fn start_of_line(&self, n: usize) -> (r: usize)
        requires
            n < line_count_of(self.text()),
        ensures
            r == line_start(self.text(), n as int),
            r < self.text().len(),
    {
        let s = self.content.as_str();
        let len = s.unicode_len();
        let mut k: usize = 0;
        let mut p: usize = 0;
        proof {
            lemma_line_start_count(self.text(), n as int);
        }
        while k < n
            invariant
                k <= n < line_count_of(s@),
                s@ == self.text(),
                len == s@.len(),
                p == line_start(s@, k as int),
                p <= s@.len(),
            decreases n - k,
        {
            proof {
                lemma_line_start_count(s@, k as int);
                lemma_line_start_count(s@, k + 1);
                lemma_next_nl_bounds(s@, p as int);
            }
            let nl = find_nl(s, p);
            p = nl + 1;
            k = k + 1;
        }
        proof {
            lemma_line_start_count(s@, n as int);
        }
        p
    }

    /// The content of line `n` (0-indexed), without its LF.
    pub fn line(&self, n: usize) -> (r: Option<String>)
        ensures
            match r {
                Some(l) => n < line_count_of(self.text())
                    && l@ == spec_line_at(self.text(), n as int),
                None => n >= line_count_of(self.text()),
            },
    {
        let count = self.line_count();
        if n >= count {
            return None;
        }
        let start = self.start_of_line(n);
        let s = self.content.as_str();
        let _len = s.unicode_len();
        let end = find_nl(s, start);
        Some(String::from_str(s.substring_char(start, end)))
    }

    /// The position where line `n` starts.
    pub fn line_to_byte(&self, n: usize) -> (r: Option<usize>)
        ensures
            match r {
                Some(p) => n < line_count_of(self.text())
                    && p == line_start(self.text(), n as int),
                None => n >= line_count_of(self.text()),
            },
    {
        let count = self.line_count();
        if n >= count {
            return None;
        }
        Some(self.start_of_line(n))
    }

    /// The line that position `pos` falls in; `None` past the end of the
    /// content, and an LF belongs to the line it terminates.
    pub fn byte_to_line(&self, pos: usize) -> (r: Option<usize>)
        ensures
            match r {
                Some(n) => pos <= self.text().len()
                    && n == spec_byte_to_line(self.text(), pos as int),
                None => pos > self.text().len(),
            },
    {
        let s = self.content.as_str();
        let len = s.unicode_len();
        if pos > len {
            return None;
        }
        let count = self.line_count();
        if count == 0 {
            return Some(0);
        }
        let mut n: usize = 0;
        let mut p: usize = 0;
        loop
            invariant
                n < count,
                count == line_count_of(s@),
                s@ == self.text(),
                len == s@.len(),
                pos <= len,
                p == line_start(s@, n as int),
                p <= len,
                spec_byte_to_line(s@, pos as int) == byte_line_from(s@, pos as int, n as int),
            decreases count - n,
        {
            proof {
                lemma_line_start_count(s@, n as int);
                lemma_next_nl_bounds(s@, p as int);
            }
            let nl = find_nl(s, p);
            if nl >= pos {
                return Some(n);
            }
            if n == count - 1 {
                proof {
                    assert(byte_line_from(s@, pos as int, n as int)
                        == byte_line_from(s@, pos as int, n + 1));
                }
                return Some(count - 1);
            }
            proof {
                lemma_line_start_count(s@, n + 1);
            }
            n = n + 1;
            p = nl + 1;
        }
    }

    /// The requested window of lines, clamped to the available range.
    pub fn view(&self, window: ViewWindow) -> (r: Vec<String>)
        ensures
            r@.len() == spec_min(
                (window.start_line + window.count) as int,
                line_count_of(self.text()),
            ) - spec_min(window.start_line as int, line_count_of(self.text())),
            forall|j: int| 0 <= j < r@.len()
                ==> r@[j]@ == spec_line_at(self.text(), window.start_line + j),
    {
        let count = self.line_count();
        let start = if window.start_line < count { window.start_line } else { count };
        let avail = count - start;
        let take = if window.count < avail { window.count } else { avail };
        let mut r: Vec<String> = Vec::new();
        let mut j: usize = 0;
        while j < take
            invariant
                j <= take,
                start + take <= line_count_of(self.text()),
                line_count_of(self.text()) <= usize::MAX,
                r@.len() == j,
                forall|m: int| 0 <= m < j
                    ==> r@[m]@ == spec_line_at(self.text(), start + m),
            decreases take - j,
        {
            match self.line(start + j) {
                Some(l) => {
                    r.push(l);
                },
                None => {
                    proof {
                        assert(false);
                    }
                },
            }
            j = j + 1;
        }
        r
    }

    /// Remove all content.
    pub fn clear(&mut self)
        ensures
            final(self).text() == Seq::<char>::empty(),
    {
        self.content = String::new();
    }
}

impl Default for RopeBuffer {
    /// An empty buffer.
    fn default() -> (r: RopeBuffer)
        ensures
            r.text() == Seq::<char>::empty(),
    {
        RopeBuffer::new()
    }
}

} // verus!
