//! Words of a text.
//!
//! A word is a maximal run of characters other than the space U+0020. Runs
//! of spaces separate words and count for nothing themselves: `"a  b"` holds
//! two words. Tabs and line terminators are no separators; they belong to
//! the word they touch and form a word where they stand alone.

use crate::text::lemma_encode_len;
use vstd::prelude::*;

verus! {

/// True when a word starts at index `i` of `s`: a character other than a
/// space stands there, at the start of `s` or right after a space.
pub open spec fn starts_word(s: Seq<char>, i: int) -> bool {
    0 <= i < s.len() && s[i] != ' ' && (i == 0 || s[i - 1] == ' ')
}

/// Number of words in `s`: the number of indices at which a word starts.
pub open spec fn word_count(s: Seq<char>) -> nat
    decreases s.len(),
{
    if s.len() == 0 {
        0
    } else {
        word_count(s.drop_last()) + if starts_word(s, s.len() - 1) {
            1nat
        } else {
            0nat
        }
    }
}

/// True when joining `a` and `b` fuses the last word of `a` with the first
/// word of `b`.
pub open spec fn fuses(a: Seq<char>, b: Seq<char>) -> bool {
    a.len() > 0 && b.len() > 0 && a.last() != ' ' && b[0] != ' '
}

/// A text has at most as many words as characters.
pub proof fn lemma_word_count_le_len(s: Seq<char>)
    ensures
        word_count(s) <= s.len(),
    decreases s.len(),
{
    if s.len() > 0 {
        lemma_word_count_le_len(s.drop_last());
    }
}

/// Joining two texts adds their words up, less the one word that is lost
/// where a word of the first runs on into the second.
pub proof fn lemma_word_count_add(a: Seq<char>, b: Seq<char>)
    ensures
        word_count(a + b) + if fuses(a, b) {
            1nat
        } else {
            0nat
        } == word_count(a) + word_count(b),
    decreases b.len(),
{
    if b.len() == 0 {
        assert(a + b =~= a);
    } else {
        let joined = a + b;
        let init = b.drop_last();
        assert(joined.drop_last() =~= a + init);
        lemma_word_count_add(a, init);
        let last = joined.len() - 1;
        if init.len() == 0 {
            assert(a + init =~= a);
            if a.len() > 0 {
                assert(joined[last - 1] == a.last());
            }
        } else {
            assert(joined[last - 1] == b[b.len() - 2]);
            assert(init[0] == b[0]);
        }
    }
}

/// A text of spaces only holds no word.
pub proof fn lemma_word_count_blank(s: Seq<char>)
    requires
        forall|i: int| 0 <= i < s.len() ==> s[i] == ' ',
    ensures
        word_count(s) == 0,
    decreases s.len(),
{
    if s.len() > 0 {
        lemma_word_count_blank(s.drop_last());
    }
}

/// A non-empty text without a space is one word.
pub proof fn lemma_word_count_token(s: Seq<char>)
    requires
        s.len() > 0,
        forall|i: int| 0 <= i < s.len() ==> s[i] != ' ',
    ensures
        word_count(s) == 1,
    decreases s.len(),
{
    if s.len() > 1 {
        lemma_word_count_token(s.drop_last());
        assert(s[s.len() - 2] != ' ');
    } else {
        assert(word_count(s.drop_last()) == 0);
    }
}

/// A space between two texts keeps their words apart: the words of the
/// whole are those of the two sides.
pub proof fn lemma_word_count_split(a: Seq<char>, b: Seq<char>)
    ensures
        word_count(a + seq![' '] + b) == word_count(a) + word_count(b),
{
    let gap = seq![' '];
    lemma_word_count_add(a, gap);
    lemma_word_count_add(a + gap, b);
    assert(word_count(gap.drop_last()) == 0);
    assert(word_count(gap) == 0);
    assert((a + gap).last() == ' ');
}

/// Counts the words and the characters of `text` in one pass.
pub fn count_words_and_chars(text: &str) -> (counts: (usize, usize))
    ensures
        counts.0 == word_count(text@),
        counts.1 == text@.len(),
{
    let bound = text.as_bytes().len();
    proof {
        lemma_encode_len(text@);
    }
    let mut words: usize = 0;
    let mut chars: usize = 0;
    let mut after_space = true;
    for c in it: text.chars()
        invariant
            it.seq() == text@,
            text@.len() <= bound,
            chars == it.index(),
            words == word_count(text@.take(it.index() as int)),
            words <= chars,
            after_space == (it.index() == 0 || text@[it.index() - 1] == ' '),
    {
        proof {
            let next = text@.take(it.index() + 1);
            assert(next.drop_last() =~= text@.take(it.index() as int));
        }
        if c != ' ' && after_space {
            words = words + 1;
        }
        chars = chars + 1;
        after_space = c == ' ';
    }
    assert(text@.take(text@.len() as int) =~= text@);
    (words, chars)
}

/// Counts the words of `text`.
pub fn count_words(text: &str) -> (count: usize)
    ensures
        count == word_count(text@),
{
    count_words_and_chars(text).0
}

} // verus!
