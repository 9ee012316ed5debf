//! An incremental reader over the bytes of one opened source.
//!
//! The reader hands out the stream either line by line, decoded to text, or
//! as a run of raw bytes. Its view is what it has not handed out yet.

use crate::lines::{find_line_end, first_line_len, lemma_line_end_skip};
use crate::text::{decode, lossy_decode};
use vstd::prelude::*;
use vstd::slice::{slice_subrange, slice_to_vec};

verus! {

/// A position in the bytes of one source.
pub struct Reader<'a> {
    data: &'a [u8],
    pos: usize,
}

impl<'a> View for Reader<'a> {
    type V = Seq<u8>;

    /// The bytes still to be read.
    closed spec fn view(&self) -> Seq<u8> {
        self.data@.skip(self.pos as int)
    }
}

/// The smaller of a requested count and what is there.
pub open spec fn at_most(n: int, len: int) -> int {
    if n <= len {
        n
    } else {
        len
    }
}

impl<'a> Reader<'a> {
    #[verifier::type_invariant]
    spec fn within_data(&self) -> bool {
        self.pos <= self.data@.len()
    }

    /// A reader at the start of `data`.
    pub fn new(data: &'a [u8]) -> (reader: Reader<'a>)
        ensures
            reader@ == data@,
    {
        let reader = Reader { data, pos: 0 };
        assert(data@.skip(0) =~= data@);
        reader
    }

    /// Number of bytes still to be read.
    pub fn remaining(&self) -> (n: usize)
        ensures
            n == self@.len(),
    {
        proof {
            use_type_invariant(self);
        }
        self.data.len() - self.pos
    }

    /// The next line with its terminator, decoded; `None` at the end of the
    /// stream. Nothing past the terminator is consumed.
    pub fn next_line(&mut self) -> (line: Option<String>)
        ensures
            old(self)@.len() == 0 ==> line is None && final(self)@ == old(self)@,
            old(self)@.len() > 0 ==> line is Some && line->0@ == lossy_decode(
                old(self)@.take(first_line_len(old(self)@)),
            ) && final(self)@ == old(self)@.skip(first_line_len(old(self)@)),
    {
        proof {
            use_type_invariant(&*self);
        }
        if self.pos >= self.data.len() {
            return None;
        }
        let start = self.pos;
        let end = find_line_end(self.data, start);
        let raw = slice_subrange(self.data, start, end);
        proof {
            lemma_line_end_skip(self.data@, start as int, 0);
            assert(raw@ =~= self.data@.skip(start as int).take(end - start));
            assert(self.data@.skip(end as int) =~= self.data@.skip(start as int).skip(end - start));
        }
        let text = decode(raw);
        self.pos = end;
        Some(text)
    }

    /// Up to `n` raw bytes, fewer only at the end of the stream. Nothing is
    /// decoded, so the cut may fall inside a character or a line.
    pub fn read_bytes(&mut self, n: usize) -> (out: Vec<u8>)
        ensures
            out@ == old(self)@.take(at_most(n as int, old(self)@.len() as int)),
            final(self)@ == old(self)@.skip(at_most(n as int, old(self)@.len() as int)),
            n <= old(self)@.len() ==> out@.len() == n,
    {
        proof {
            use_type_invariant(&*self);
        }
        let start = self.pos;
        let available = self.data.len() - start;
        let count = if n <= available {
            n
        } else {
            available
        };
        let out = slice_to_vec(slice_subrange(self.data, start, start + count));
        proof {
            assert(out@ =~= self.data@.skip(start as int).take(count as int));
            assert(self.data@.skip(start + count) =~= self.data@.skip(start as int).skip(
                count as int,
            ));
        }
        self.pos = start + count;
        out
    }
}

} // verus!
