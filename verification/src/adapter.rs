//! The adapter's framing policy: turning a wrapped child's output lines
//! into sequenced data frames.
//!
//! One counter is shared by the stdout and stderr streams, so the sequence
//! numbers a single adapter emits are contiguous and strictly increasing
//! from 0; no interleaving order between the two streams is promised beyond
//! that.

use vstd::prelude::*;
use crate::frame::DataFrame;

verus! {

/// The bytes of `"[stderr] "`, prefixed to every stderr line.
pub open spec fn stderr_prefix() -> Seq<u8> {
    seq![91u8, 115u8, 116u8, 100u8, 101u8, 114u8, 114u8, 93u8, 32u8]
}

/// The shared sequence counter for one adapter's data stream.
#[derive(Debug)]
pub struct FrameSequencer {
    /// The sequence number the next frame will carry.
    next_seq: u64,
}

impl FrameSequencer {
    /// The sequence number the next frame will carry.
    pub closed spec fn spec_next_seq(&self) -> u64 {
        self.next_seq
    }

    /// A fresh counter; emitted sequence numbers start at 0.
    pub fn new() -> (r: FrameSequencer)
        ensures
            r.spec_next_seq() == 0,
    {
        FrameSequencer { next_seq: 0 }
    }

    /// Frame one stdout line: the payload is the line's bytes with an LF
    /// appended, under the next sequence number.
    pub fn frame_stdout_line(&mut self, line: Vec<u8>) -> (f: DataFrame)
        requires
            old(self).spec_next_seq() < u64::MAX,
            line@.len() < usize::MAX,
        ensures
            final(self).spec_next_seq() == old(self).spec_next_seq() + 1,
            f.seq == old(self).spec_next_seq(),
            f.payload@ == line@ + seq![10u8],
    {
        let mut payload = line;
        payload.push(10);
        let seq_no = self.next_seq;
        self.next_seq = self.next_seq + 1;
        DataFrame::new(seq_no, payload)
    }

    /// Frame one stderr line: the payload is `"[stderr] "`, the line's
    /// bytes, and an LF, under the next sequence number.
    pub fn frame_stderr_line(&mut self, line: &Vec<u8>) -> (f: DataFrame)
        requires
            old(self).spec_next_seq() < u64::MAX,
            line@.len() + 10 <= usize::MAX,
        ensures
            final(self).spec_next_seq() == old(self).spec_next_seq() + 1,
            f.seq == old(self).spec_next_seq(),
            f.payload@ == stderr_prefix() + line@ + seq![10u8],
    {
        let mut payload: Vec<u8> = Vec::new();
        payload.push(91);  // '['
        payload.push(115);  // 's'
        payload.push(116);  // 't'
        payload.push(100);  // 'd'
        payload.push(101);  // 'e'
        payload.push(114);  // 'r'
        payload.push(114);  // 'r'
        payload.push(93);  // ']'
        payload.push(32);  // ' '
        payload.extend_from_slice(line.as_slice());
        payload.push(10);
        proof {
            assert(payload@ =~= stderr_prefix() + line@ + seq![10u8]);
        }
        let seq_no = self.next_seq;
        self.next_seq = self.next_seq + 1;
        DataFrame::new(seq_no, payload)
    }
}

} // verus!
