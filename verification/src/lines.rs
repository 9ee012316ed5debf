//! Where the lines of a byte stream begin and end.
//!
//! A line runs up to and including the next line-feed byte; the last line of
//! a stream may lack one. A carriage return before the line feed belongs to
//! the line it ends and is no terminator by itself.

use vstd::prelude::*;

verus! {

/// The byte that terminates a line.
pub const NEWLINE: u8 = 0x0A;

/// Index just past the first line terminator of `s` at or after `from`, or
/// the length of `s` when no terminator follows.
pub open spec fn line_end(s: Seq<u8>, from: int) -> int
    decreases s.len() - from,
{
    if from < 0 || from >= s.len() {
        s.len() as int
    } else if s[from] == NEWLINE {
        from + 1
    } else {
        line_end(s, from + 1)
    }
}

/// Length of the first line of `s`, terminator included.
pub open spec fn first_line_len(s: Seq<u8>) -> int {
    line_end(s, 0)
}

/// The lines of `s` in order, each with its terminator. Only the last line
/// can lack one, and no line is empty.
pub open spec fn split_lines(s: Seq<u8>) -> Seq<Seq<u8>>
    decreases s.len(),
{
    if s.len() == 0 {
        Seq::empty()
    } else {
        proof {
            lemma_line_end_bounds(s, 0);
        }
        seq![s.take(first_line_len(s))] + split_lines(s.skip(first_line_len(s)))
    }
}

/// Number of line terminators in `s`.
pub open spec fn newline_count(s: Seq<u8>) -> nat
    decreases s.len(),
{
    if s.len() == 0 {
        0
    } else {
        newline_count(s.drop_last()) + if s.last() == NEWLINE {
            1nat
        } else {
            0nat
        }
    }
}

/// True when `s` is non-empty and does not end with a line terminator.
pub open spec fn ends_unterminated(s: Seq<u8>) -> bool {
    s.len() > 0 && s.last() != NEWLINE
}

/// A line that starts inside `s` is non-empty and stays inside `s`.
pub proof fn lemma_line_end_bounds(s: Seq<u8>, from: int)
    requires
        0 <= from < s.len(),
    ensures
        from < line_end(s, from) <= s.len(),
    decreases s.len() - from,
{
    if s[from] != NEWLINE {
        if from + 1 < s.len() {
            lemma_line_end_bounds(s, from + 1);
        } else {
            assert(line_end(s, from + 1) == s.len());
        }
    }
}

/// Up to its last byte a line holds no terminator, and it ends with one
/// unless it reaches the end of `s`.
pub proof fn lemma_line_end_shape(s: Seq<u8>, from: int)
    requires
        0 <= from < s.len(),
    ensures
        forall|i: int| from <= i < line_end(s, from) - 1 ==> s[i] != NEWLINE,
        line_end(s, from) < s.len() ==> s[line_end(s, from) - 1] == NEWLINE,
        s[line_end(s, from) - 1] != NEWLINE ==> line_end(s, from) == s.len(),
    decreases s.len() - from,
{
    if s[from] != NEWLINE {
        if from + 1 < s.len() {
            lemma_line_end_bounds(s, from + 1);
            lemma_line_end_shape(s, from + 1);
        } else {
            assert(line_end(s, from + 1) == s.len());
        }
    }
}

/// Skipping the first `k` bytes moves every line end by `k`.
pub proof fn lemma_line_end_skip(s: Seq<u8>, k: int, from: int)
    requires
        0 <= k <= s.len(),
        0 <= from,
    ensures
        line_end(s.skip(k), from) + k == line_end(s, from + k),
    decreases s.len() - k - from,
{
    if from < s.len() - k {
        assert(s.skip(k)[from] == s[from + k]);
        if s[from + k] != NEWLINE {
            lemma_line_end_skip(s, k, from + 1);
        }
    }
}

/// The terminators of two sequences add up in their concatenation.
pub proof fn lemma_newline_count_add(a: Seq<u8>, b: Seq<u8>)
    ensures
        newline_count(a + b) == newline_count(a) + newline_count(b),
    decreases b.len(),
{
    if b.len() == 0 {
        assert(a + b =~= a);
    } else {
        assert((a + b).drop_last() =~= a + b.drop_last());
        lemma_newline_count_add(a, b.drop_last());
    }
}

/// A sequence without terminators counts none.
pub proof fn lemma_newline_count_none(s: Seq<u8>)
    requires
        forall|i: int| 0 <= i < s.len() ==> s[i] != NEWLINE,
    ensures
        newline_count(s) == 0,
    decreases s.len(),
{
    if s.len() > 0 {
        lemma_newline_count_none(s.drop_last());
    }
}

/// The first line of a non-empty `s` holds one terminator when it ends with
/// one, and none otherwise.
pub proof fn lemma_first_line_newlines(s: Seq<u8>)
    requires
        s.len() > 0,
    ensures
        newline_count(s.take(first_line_len(s))) == if s[first_line_len(s) - 1] == NEWLINE {
            1nat
        } else {
            0nat
        },
{
    lemma_line_end_bounds(s, 0);
    lemma_line_end_shape(s, 0);
    let line = s.take(first_line_len(s));
    lemma_newline_count_none(line.drop_last());
}

/// Line count law: a stream with `k` terminators has `k` lines when it is
/// empty or ends with a terminator, and `k + 1` lines when a last fragment
/// follows the final terminator.
pub proof fn lemma_line_count(s: Seq<u8>)
    ensures
        split_lines(s).len() == newline_count(s) + if ends_unterminated(s) {
            1nat
        } else {
            0nat
        },
    decreases s.len(),
{
    if s.len() > 0 {
        let n = first_line_len(s);
        lemma_line_end_bounds(s, 0);
        lemma_line_end_shape(s, 0);
        lemma_first_line_newlines(s);
        lemma_newline_count_add(s.take(n), s.skip(n));
        assert(s.take(n) + s.skip(n) =~= s);
        lemma_line_count(s.skip(n));
        if n < s.len() {
            assert(s.skip(n).last() == s.last());
        }
    }
}

/// No line is empty, so a stream has at most as many lines as bytes.
pub proof fn lemma_line_count_le_len(s: Seq<u8>)
    ensures
        split_lines(s).len() <= s.len(),
    decreases s.len(),
{
    if s.len() > 0 {
        lemma_line_end_bounds(s, 0);
        lemma_line_count_le_len(s.skip(first_line_len(s)));
    }
}

/// Scans `data` from `from` to the end of the line that starts there. From
/// the end of `data`, or beyond it, that is the end of `data`.
pub fn find_line_end(data: &[u8], from: usize) -> (end: usize)
    ensures
        end == line_end(data@, from as int),
        end <= data@.len(),
        from < data@.len() ==> from < end,
{
    if from >= data.len() {
        return data.len();
    }
    let mut i: usize = from;
    while i < data.len()
        invariant
            from <= i <= data@.len(),
            line_end(data@, from as int) == line_end(data@, i as int),
        decreases data@.len() - i,
    {
        if data[i] == NEWLINE {
            return i + 1;
        }
        i = i + 1;
    }
    i
}

} // verus!
