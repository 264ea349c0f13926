//! Ring buffer: fixed-capacity, append-only storage for streamed text lines.
//!
//! Pushing at capacity evicts the oldest resident line first. A counter of
//! all lines ever pushed survives eviction; `clear` resets it.

use vstd::prelude::*;
use std::collections::VecDeque;
use crate::buffer::{spec_min, ViewWindow};
use crate::textops::{spec_contains, str_contains};

verus! {

/// Approximate bookkeeping overhead per resident line, in bytes: the size of
/// a `String` header on a 64-bit machine.
pub const LINE_OVERHEAD_BYTES: usize = 24;

/// The resident lines after pushing `line` into contents `v` at capacity
/// `cap`: the oldest line leaves first when the buffer is full.
pub open spec fn spec_push_one(v: Seq<String>, line: String, cap: int) -> Seq<String> {
    if v.len() >= cap {
        v.drop_first().push(line)
    } else {
        v.push(line)
    }
}

/// The resident lines after pushing each of `new`, in order.
pub open spec fn spec_push_all(v: Seq<String>, new: Seq<String>, cap: int) -> Seq<String>
    decreases new.len(),
{
    if new.len() == 0 {
        v
    } else {
        spec_push_all(spec_push_one(v, new[0], cap), new.drop_first(), cap)
    }
}

/// Pushing one line after a batch is the same as pushing the longer batch.
proof fn lemma_push_all_snoc(v: Seq<String>, new: Seq<String>, line: String, cap: int)
    ensures
        spec_push_all(v, new.push(line), cap)
            == spec_push_one(spec_push_all(v, new, cap), line, cap),
    decreases new.len(),
{
    if new.len() == 0 {
        reveal_with_fuel(spec_push_all, 3);
        assert(new.push(line).drop_first() =~= Seq::<String>::empty());
        assert(new.push(line)[0] == line);
    } else {
        assert(new.push(line).drop_first() =~= new.drop_first().push(line));
        assert(new.push(line)[0] == new[0]);
        lemma_push_all_snoc(spec_push_one(v, new[0], cap), new.drop_first(), line, cap);
    }
}

/// Law: pushing a batch leaves the last `capacity` of old-then-new lines
/// resident, in push order; with more pushes than capacity, exactly the
/// last `capacity` pushed remain.
pub proof fn lemma_push_all_residents(v: Seq<String>, new: Seq<String>, cap: int)
    requires
        0 < cap,
        v.len() <= cap,
    ensures
        ({
            let all = v + new;
            let keep = spec_min(cap, all.len() as int);
            spec_push_all(v, new, cap) == all.subrange(all.len() - keep, all.len() as int)
        }),
    decreases new.len(),
{
    let all = v + new;
    let keep = spec_min(cap, all.len() as int);
    if new.len() == 0 {
        assert(all =~= v);
        assert(all.subrange(all.len() - keep, all.len() as int) =~= v);
    } else {
        let v1 = spec_push_one(v, new[0], cap);
        lemma_push_all_residents(v1, new.drop_first(), cap);
        let all1 = v1 + new.drop_first();
        let keep1 = spec_min(cap, all1.len() as int);
        if v.len() >= cap {
            assert(all1 =~= all.drop_first());
            assert(keep1 == cap && keep == cap);
            assert(all1.subrange(all1.len() - keep1, all1.len() as int)
                =~= all.subrange(all.len() - keep, all.len() as int));
        } else {
            assert(all1 =~= all);
        }
    }
}

/// The `(index, line)` pairs, from index `i` on, whose line contains `pat`.
pub open spec fn spec_search(v: Seq<String>, pat: Seq<char>, i: int) -> Seq<(usize, String)>
    decreases v.len() - i,
{
    if i < 0 || i >= v.len() {
        Seq::empty()
    } else {
        let rest = spec_search(v, pat, i + 1);
        if spec_contains(v[i]@, pat) {
            seq![(i as usize, v[i])] + rest
        } else {
            rest
        }
    }
}

/// Saturating approximate footprint of contents `v` added to `acc`: one
/// byte per character plus a fixed overhead per line, capped at `usize::MAX`.
pub open spec fn spec_footprint(v: Seq<String>, acc: int) -> int
    decreases v.len(),
{
    if v.len() == 0 {
        acc
    } else {
        let step = acc + v[0]@.len() + LINE_OVERHEAD_BYTES;
        spec_footprint(
            v.drop_first(),
            if step > usize::MAX { usize::MAX as int } else { step },
        )
    }
}

/// Fixed-capacity append-only line store for streams.
#[derive(Debug, Clone)]
pub struct RingBuffer {
    /// Maximum number of resident lines; always positive.
    capacity: usize,
    /// Resident lines, oldest first.
    lines: VecDeque<String>,
    /// Lines ever pushed, including those evicted since.
    total_pushed: usize,
}

impl RingBuffer {
    /// The resident lines, oldest first.
    pub closed spec fn contents(&self) -> Seq<String> {
        self.lines@
    }

    /// The most lines the buffer will hold.
    pub closed spec fn spec_capacity(&self) -> usize {
        self.capacity
    }

    /// Lines ever pushed, including those evicted since.
    pub closed spec fn spec_total_pushed(&self) -> usize {
        self.total_pushed
    }

    /// Well-formed: positive capacity, and no more resident lines than the
    /// capacity or than were ever pushed.
    pub closed spec fn inv(&self) -> bool {
        &&& 0 < self.capacity
        &&& self.lines@.len() <= self.capacity
        &&& self.lines@.len() <= self.total_pushed
    }

    /// Create a ring buffer holding at most `capacity` lines.
    pub fn new(capacity: usize) -> (r: RingBuffer)
        requires
            capacity > 0,
        ensures
            r.inv(),
            r.contents() == Seq::<String>::empty(),
            r.spec_capacity() == capacity,
            r.spec_total_pushed() == 0,
    {
        RingBuffer { capacity, lines: VecDeque::new(), total_pushed: 0 }
    }

    /// The capacity.
    pub fn capacity(&self) -> (r: usize)
        ensures
            r == self.spec_capacity(),
    {
        self.capacity
    }

    /// The number of resident lines.
    pub fn len(&self) -> (r: usize)
        ensures
            r == self.contents().len(),
    {
        self.lines.len()
    }

    /// Whether no lines are resident.
    pub fn is_empty(&self) -> (r: bool)
        ensures
            r == (self.contents().len() == 0),
    {
        self.lines.len() == 0
    }

    /// Whether the buffer is at capacity.
    pub fn is_full(&self) -> (r: bool)
        ensures
            r == (self.contents().len() >= self.spec_capacity()),
    {
        self.lines.len() >= self.capacity
    }

    /// Lines ever pushed, including those evicted since.
    pub fn total_pushed(&self) -> (r: usize)
        ensures
            r == self.spec_total_pushed(),
    {
        self.total_pushed
    }

    /// Push a line; at capacity the oldest resident line is evicted first.
    pub fn push(&mut self, line: String)
        requires
            old(self).inv(),
            old(self).spec_total_pushed() < usize::MAX,
        ensures
            final(self).inv(),
            final(self).spec_capacity() == old(self).spec_capacity(),
            final(self).spec_total_pushed() == old(self).spec_total_pushed() + 1,
            final(self).contents() == spec_push_one(old(self).contents(), line, old(self).spec_capacity() as int),
    {
        if self.lines.len() >= self.capacity {
            let _ = self.lines.pop_front();
        }
        self.lines.push_back(line);
        self.total_pushed = self.total_pushed + 1;
        proof {
            assert(self.lines@ =~= spec_push_one(
                old(self).contents(),
                line,
                old(self).spec_capacity() as int,
            ));
        }
    }

    /// Push several lines, oldest first.
    pub fn push_lines(&mut self, lines: Vec<String>)
        requires
            old(self).inv(),
            old(self).spec_total_pushed() + lines@.len() <= usize::MAX,
        ensures
            final(self).inv(),
            final(self).spec_capacity() == old(self).spec_capacity(),
            final(self).spec_total_pushed() == old(self).spec_total_pushed() + lines@.len(),
            final(self).contents() == spec_push_all(old(self).contents(), lines@, old(self).spec_capacity() as int),
    {
        let ghost cap = self.spec_capacity() as int;
        let mut i: usize = 0;
        while i < lines.len()
            invariant
                i <= lines@.len(),
                self.inv(),
                self.spec_capacity() == old(self).spec_capacity(),
                cap == old(self).spec_capacity() as int,
                self.spec_total_pushed() == old(self).spec_total_pushed() + i,
                old(self).spec_total_pushed() + lines@.len() <= usize::MAX,
                self.contents() == spec_push_all(old(self).contents(), lines@.subrange(0, i as int), cap),
            decreases lines@.len() - i,
        {
            let line = lines[i].clone();
            proof {
                lemma_push_all_snoc(old(self).contents(), lines@.subrange(0, i as int), lines@[i as int], cap);
                assert(lines@.subrange(0, i as int).push(lines@[i as int])
                    =~= lines@.subrange(0, i + 1));
            }
            self.push(line);
            i = i + 1;
        }
        proof {
            assert(lines@.subrange(0, lines@.len() as int) =~= lines@);
        }
    }

    /// The line at `index` (0 is the oldest resident line).
    pub fn get(&self, index: usize) -> (r: Option<&str>)
        ensures
            match r {
                Some(s) => index < self.contents().len() && s@ == self.contents()[index as int]@,
                None => index >= self.contents().len(),
            },
    {
        if index < self.lines.len() {
            Some(self.lines[index].as_str())
        } else {
            None
        }
    }

    /// Copy the resident lines at `start..end` into a vector, oldest first.
    fn collect_range(&self, start: usize, end: usize) -> (r: Vec<String>)
        requires
            start <= end <= self.contents().len(),
        ensures
            r@ == self.contents().subrange(start as int, end as int),
    {
        let mut r: Vec<String> = Vec::new();
        proof {
            assert(Seq::<String>::empty() =~= self.contents().subrange(start as int, start as int));
        }
        let mut i = start;
        while i < end
            invariant
                start <= i <= end <= self.contents().len(),
                r@ == self.contents().subrange(start as int, i as int),
            decreases end - i,
        {
            r.push(self.lines[i].clone());
            proof {
                assert(self.contents().subrange(start as int, i as int).push(self.contents()[i as int])
                    =~= self.contents().subrange(start as int, i + 1));
            }
            i = i + 1;
        }
        r
    }

    /// All resident lines, oldest first.
    pub fn lines(&self) -> (r: Vec<String>)
        ensures
            r@ == self.contents(),
    {
        let r = self.collect_range(0, self.lines.len());
        proof {
            assert(self.contents().subrange(0, self.contents().len() as int) =~= self.contents());
        }
        r
    }

    /// The requested window of lines, clamped to the available range.
    pub fn view(&self, window: ViewWindow) -> (r: Vec<String>)
        ensures
            r@ == self.contents().subrange(
                spec_min(window.start_line as int, self.contents().len() as int),
                spec_min(window.start_line + window.count, self.contents().len() as int),
            ),
    {
        let len = self.lines.len();
        let start = if window.start_line < len { window.start_line } else { len };
        let avail = len - start;
        let take = if window.count < avail { window.count } else { avail };
        self.collect_range(start, start + take)
    }

    /// The last `n` resident lines (all of them when fewer are resident).
    pub fn tail(&self, n: usize) -> (r: Vec<String>)
        ensures
            r@ == self.contents().subrange(
                self.contents().len() as int - spec_min(n as int, self.contents().len() as int),
                self.contents().len() as int,
            ),
    {
        let len = self.lines.len();
        let keep = if n < len { n } else { len };
        self.collect_range(len - keep, len)
    }

    /// The first `n` resident lines (all of them when fewer are resident).
    pub fn head(&self, n: usize) -> (r: Vec<String>)
        ensures
            r@ == self.contents().subrange(0, spec_min(n as int, self.contents().len() as int)),
    {
        let len = self.lines.len();
        let keep = if n < len { n } else { len };
        self.collect_range(0, keep)
    }

    /// Remove all resident lines and reset the total-pushed counter.
    pub fn clear(&mut self)
        requires
            old(self).inv(),
        ensures
            final(self).inv(),
            final(self).spec_capacity() == old(self).spec_capacity(),
            final(self).spec_total_pushed() == 0,
            final(self).contents() == Seq::<String>::empty(),
    {
        self.lines.clear();
        self.total_pushed = 0;
    }

    /// The `(index, line)` pairs of resident lines that contain `pattern`,
    /// in index order.
    pub fn search(&self, pattern: &str) -> (r: Vec<(usize, String)>)
        ensures
            r@ == spec_search(self.contents(), pattern@, 0),
    {
        let mut r: Vec<(usize, String)> = Vec::new();
        proof {
            assert(Seq::<(usize, String)>::empty() + spec_search(self.contents(), pattern@, 0)
                =~= spec_search(self.contents(), pattern@, 0));
        }
        let len = self.lines.len();
        let mut i: usize = 0;
        while i < len
            invariant
                i <= len == self.contents().len(),
                spec_search(self.contents(), pattern@, 0) == r@ + spec_search(self.contents(), pattern@, i as int),
            decreases len - i,
        {
            if str_contains(self.lines[i].as_str(), pattern) {
                let pair = (i, self.lines[i].clone());
                proof {
                    assert(r@.push((i, self.contents()[i as int])) + spec_search(self.contents(), pattern@, i + 1)
                        =~= r@ + spec_search(self.contents(), pattern@, i as int));
                }
                r.push(pair);
            }
            i = i + 1;
        }
        proof {
            assert(r@ + spec_search(self.contents(), pattern@, len as int) =~= r@);
        }
        r
    }

    /// The oldest resident line.
    pub fn oldest(&self) -> (r: Option<&str>)
        ensures
            match r {
                Some(s) => self.contents().len() > 0 && s@ == self.contents()[0]@,
                None => self.contents().len() == 0,
            },
    {
        if self.lines.len() > 0 {
            Some(self.lines[0].as_str())
        } else {
            None
        }
    }

    /// The newest resident line.
    pub fn newest(&self) -> (r: Option<&str>)
        ensures
            match r {
                Some(s) => self.contents().len() > 0 && s@ == self.contents()[self.contents().len() - 1]@,
                None => self.contents().len() == 0,
            },
    {
        let len = self.lines.len();
        if len > 0 {
            Some(self.lines[len - 1].as_str())
        } else {
            None
        }
    }

    /// Change the capacity; when shrinking below the resident count, the
    /// oldest lines are dropped first.
    pub fn resize(&mut self, new_capacity: usize)
        requires
            old(self).inv(),
            new_capacity > 0,
        ensures
            final(self).inv(),
            final(self).spec_capacity() == new_capacity,
            final(self).spec_total_pushed() == old(self).spec_total_pushed(),
            final(self).contents() == old(self).contents().subrange(
                old(self).contents().len() as int
                    - spec_min(new_capacity as int, old(self).contents().len() as int),
                old(self).contents().len() as int,
            ),
    {
        proof {
            assert(old(self).contents().subrange(0, old(self).contents().len() as int) =~= old(self).contents());
        }
        while self.lines.len() > new_capacity
            invariant
                self.lines@.len() <= old(self).contents().len(),
                self.lines@.len() >= spec_min(new_capacity as int, old(self).contents().len() as int),
                self.lines@ == old(self).contents().subrange(
                    old(self).contents().len() as int - self.lines@.len() as int,
                    old(self).contents().len() as int,
                ),
                self.capacity == old(self).spec_capacity(),
                self.total_pushed == old(self).spec_total_pushed(),
            decreases self.lines@.len(),
        {
            let ghost before = self.lines@;
            let _ = self.lines.pop_front();
            proof {
                assert(before.subrange(1, before.len() as int) =~= old(self).contents().subrange(
                    old(self).contents().len() as int - before.len() as int + 1,
                    old(self).contents().len() as int,
                ));
            }
        }
        self.capacity = new_capacity;
        proof {
            if old(self).contents().len() <= new_capacity {
                assert(old(self).contents().subrange(0, old(self).contents().len() as int) =~= old(self).contents());
            }
        }
    }

    /// Approximate memory footprint in bytes: each resident line's character
    /// count plus a fixed per-line overhead, saturating at `usize::MAX`.
    pub fn memory_usage(&self) -> (r: usize)
        ensures
            r == spec_footprint(self.contents(), 0),
    {
        let mut acc: usize = 0;
        let len = self.lines.len();
        proof {
            assert(self.contents().subrange(0, len as int) =~= self.contents());
        }
        let mut i: usize = 0;
        while i < len
            invariant
                i <= len == self.contents().len(),
                spec_footprint(self.contents(), 0) == spec_footprint(
                    self.contents().subrange(i as int, len as int),
                    acc as int,
                ),
            decreases len - i,
        {
            let ghost pre = self.contents().subrange(i as int, len as int);
            let bytes = self.lines[i].as_str().unicode_len();
            let step = if bytes <= usize::MAX - LINE_OVERHEAD_BYTES {
                bytes + LINE_OVERHEAD_BYTES
            } else {
                usize::MAX
            };
            let next = if acc <= usize::MAX - step { acc + step } else { usize::MAX };
            proof {
                assert(pre.drop_first() =~= self.contents().subrange(i + 1, len as int));
                assert(pre[0] == self.contents()[i as int]);
                let raw = acc + pre[0]@.len() + LINE_OVERHEAD_BYTES;
                assert(bytes == pre[0]@.len());
                assert(next as int == if raw > usize::MAX { usize::MAX as int } else { raw });
                assert(spec_footprint(pre, acc as int)
                    == spec_footprint(pre.drop_first(), next as int));
            }
            acc = next;
            i = i + 1;
        }
        proof {
            assert(self.contents().subrange(len as int, len as int) =~= Seq::<String>::empty());
        }
        acc
    }
}

} // verus!
