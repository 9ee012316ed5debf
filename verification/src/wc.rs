//! Counting the lines, words, bytes and characters of a stream.
//!
//! A stream is counted line by line, each line decoded by itself. Every
//! line adds one to the lines, its words to the words, the length of its
//! text in UTF-8 to the bytes, and the number of its characters to the
//! characters; the terminator counts as part of its line.

use crate::lines::{
    ends_unterminated, first_line_len, lemma_line_count, lemma_line_count_le_len,
    lemma_line_end_bounds, newline_count, split_lines,
};
use crate::number::{column, push_column};
use crate::reader::Reader;
use crate::source::{failure_line, push_failure_line, Emission, OpenError};
use crate::text::{
    decode_lines, is_ascii_bytes, lemma_ascii_is_valid, lemma_decode_len,
    lemma_decoded_text_roundtrip,
    lemma_decoded_text_valid, lemma_encode_add, lemma_encode_len,
};
use crate::words::{
    count_words_and_chars, fuses, lemma_word_count_add, lemma_word_count_le_len, word_count,
};
use vstd::prelude::*;
use vstd::string::StringExecFns;
use vstd::utf8::{encode_utf8, is_ascii_chars, valid_utf8};

verus! {

/// Width of the column that holds one count.
pub const COUNT_WIDTH: usize = 8;

/// The four counts of a text, as numbers without bound.
pub struct Counts {
    pub lines: nat,
    pub words: nat,
    pub bytes: nat,
    pub chars: nat,
}

impl Counts {
    /// The counts of nothing.
    pub open spec fn zero() -> Counts {
        Counts { lines: 0, words: 0, bytes: 0, chars: 0 }
    }

    /// Count by count, the sum.
    pub open spec fn plus(self, other: Counts) -> Counts {
        Counts {
            lines: self.lines + other.lines,
            words: self.words + other.words,
            bytes: self.bytes + other.bytes,
            chars: self.chars + other.chars,
        }
    }

    /// True when every count can be held in a `usize`.
    pub open spec fn fits(self) -> bool {
        self.lines <= usize::MAX && self.words <= usize::MAX && self.bytes <= usize::MAX
            && self.chars <= usize::MAX
    }

    /// True when no count exceeds its counterpart in `other`.
    pub open spec fn le(self, other: Counts) -> bool {
        self.lines <= other.lines && self.words <= other.words && self.bytes <= other.bytes
            && self.chars <= other.chars
    }
}

/// What one line adds to the counts.
pub open spec fn line_counts(line: Seq<char>) -> Counts {
    Counts {
        lines: 1,
        words: word_count(line),
        bytes: encode_utf8(line).len(),
        chars: line.len(),
    }
}

/// The counts of a sequence of lines: the sum of what each line adds.
pub open spec fn tally(lines: Seq<Seq<char>>) -> Counts
    decreases lines.len(),
{
    if lines.len() == 0 {
        Counts::zero()
    } else {
        tally(lines.drop_last()).plus(line_counts(lines.last()))
    }
}

/// The counts of the stream `bytes`.
pub open spec fn counts_of(bytes: Seq<u8>) -> Counts {
    tally(decode_lines(split_lines(bytes)))
}

/// How many lines after the first run on from the text before them, so that
/// a word spans the line boundary.
pub open spec fn fused_joins(lines: Seq<Seq<char>>) -> nat
    decreases lines.len(),
{
    if lines.len() == 0 {
        0
    } else {
        fused_joins(lines.drop_last()) + if fuses(lines.drop_last().flatten(), lines.last()) {
            1nat
        } else {
            0nat
        }
    }
}

/// The counts of some lines in terms of their joined text: one line each,
/// the characters of the text, and the bytes of its encoding. No count of
/// words exceeds that of characters, and none of characters that of bytes.
pub proof fn lemma_tally_of_text(lines: Seq<Seq<char>>)
    ensures
        tally(lines).lines == lines.len(),
        tally(lines).chars == lines.flatten().len(),
        tally(lines).bytes == encode_utf8(lines.flatten()).len(),
        tally(lines).words <= tally(lines).chars <= tally(lines).bytes,
    decreases lines.len(),
{
    lines.lemma_flatten_and_flatten_alt_are_equivalent();
    if lines.len() > 0 {
        let init = lines.drop_last();
        init.lemma_flatten_and_flatten_alt_are_equivalent();
        lemma_tally_of_text(init);
        lemma_encode_add(init.flatten(), lines.last());
        lemma_encode_len(lines.last());
        lemma_word_count_le_len(lines.last());
    }
}

/// Words law: the words counted line by line are the words of the joined
/// text, plus one for every line boundary that a word spans. Where no word
/// spans a line boundary the count is the number of maximal runs of
/// characters other than spaces in the whole text.
pub proof fn lemma_tally_words(lines: Seq<Seq<char>>)
    ensures
        tally(lines).words == word_count(lines.flatten()) + fused_joins(lines),
        fused_joins(lines) == 0 ==> tally(lines).words == word_count(lines.flatten()),
        lines.len() <= 1 ==> fused_joins(lines) == 0,
    decreases lines.len(),
{
    lines.lemma_flatten_and_flatten_alt_are_equivalent();
    if lines.len() > 0 {
        let init = lines.drop_last();
        init.lemma_flatten_and_flatten_alt_are_equivalent();
        lemma_tally_words(init);
        lemma_word_count_add(init.flatten(), lines.last());
        if lines.len() == 1 {
            assert(init.flatten().len() == 0);
        }
    }
}

/// Bytes law: a text never has fewer bytes than characters. It has as many
/// of the one as of the other exactly when all of it is ASCII, and more
/// bytes as soon as one character needs several.
pub proof fn lemma_tally_bytes_chars(lines: Seq<Seq<char>>)
    ensures
        tally(lines).chars <= tally(lines).bytes,
        tally(lines).chars == tally(lines).bytes <==> is_ascii_chars(lines.flatten()),
{
    lemma_tally_of_text(lines);
    lemma_encode_len(lines.flatten());
}

/// The counts of the first lines never exceed the counts of all.
pub proof fn lemma_tally_prefix(lines: Seq<Seq<char>>, k: int)
    requires
        0 <= k <= lines.len(),
    ensures
        tally(lines.take(k)).le(tally(lines)),
    decreases lines.len(),
{
    if k == lines.len() {
        assert(lines.take(k) =~= lines);
    } else {
        assert(lines.drop_last().take(k) =~= lines.take(k));
        lemma_tally_prefix(lines.drop_last(), k);
    }
}

/// A stream of valid UTF-8 has as many bytes counted as it holds, and all
/// its counts fit: none exceeds the length of the stream.
pub proof fn lemma_counts_of_valid(bytes: Seq<u8>)
    requires
        valid_utf8(bytes),
    ensures
        counts_of(bytes).bytes == bytes.len(),
        counts_of(bytes).lines <= bytes.len(),
        counts_of(bytes).words <= counts_of(bytes).chars <= bytes.len(),
{
    lemma_tally_of_text(decode_lines(split_lines(bytes)));
    lemma_decoded_text_roundtrip(bytes);
    lemma_line_count_le_len(bytes);
}

/// Bytes law for valid UTF-8: the stream has as many characters as bytes
/// exactly when it is pure ASCII, and more bytes than characters as soon as
/// it holds a character of several bytes.
pub proof fn lemma_counts_bytes_chars(bytes: Seq<u8>)
    requires
        valid_utf8(bytes),
    ensures
        counts_of(bytes).chars <= counts_of(bytes).bytes == bytes.len(),
        counts_of(bytes).chars == counts_of(bytes).bytes <==> is_ascii_bytes(bytes),
{
    lemma_counts_of_valid(bytes);
    lemma_tally_of_text(decode_lines(split_lines(bytes)));
    lemma_decoded_text_valid(bytes);
    lemma_decode_len(bytes);
}

/// The counts of one source.
#[derive(Debug, Clone, Copy, PartialEq, Eq, Structural)]
pub struct FileInfo {
    pub num_lines: usize,
    pub num_words: usize,
    pub num_bytes: usize,
    pub num_chars: usize,
}

impl View for FileInfo {
    type V = Counts;

    open spec fn view(&self) -> Counts {
        Counts {
            lines: self.num_lines as nat,
            words: self.num_words as nat,
            bytes: self.num_bytes as nat,
            chars: self.num_chars as nat,
        }
    }
}

impl FileInfo {
    /// True when the counts can be those of one text: no more words than
    /// characters, and no more characters than bytes.
    pub open spec fn wf(&self) -> bool {
        self.num_words <= self.num_chars <= self.num_bytes
    }

    /// The counts of nothing.
    pub fn zero() -> (info: FileInfo)
        ensures
            info@ == Counts::zero(),
            info.wf(),
    {
        FileInfo { num_lines: 0, num_words: 0, num_bytes: 0, num_chars: 0 }
    }

    /// Count by count, the sum of two records, or `None` when one of the
    /// sums cannot be held.
    pub fn checked_add(&self, other: &FileInfo) -> (sum: Option<FileInfo>)
        ensures
            self@.plus(other@).fits() ==> sum is Some && sum->0@ == self@.plus(other@),
            !self@.plus(other@).fits() ==> sum is None,
            self.wf() && other.wf() && sum is Some ==> sum->0.wf(),
    {
        let num_lines = match self.num_lines.checked_add(other.num_lines) {
            Some(n) => n,
            None => {
                return None;
            },
        };
        let num_words = match self.num_words.checked_add(other.num_words) {
            Some(n) => n,
            None => {
                return None;
            },
        };
        let num_bytes = match self.num_bytes.checked_add(other.num_bytes) {
            Some(n) => n,
            None => {
                return None;
            },
        };
        let num_chars = match self.num_chars.checked_add(other.num_chars) {
            Some(n) => n,
            None => {
                return None;
            },
        };
        Some(FileInfo { num_lines, num_words, num_bytes, num_chars })
    }
}

/// Why a count could not be reported.
#[derive(Debug, Clone, Copy, PartialEq, Eq, Structural)]
pub enum CountError {
    /// A count exceeds what a `usize` can hold.
    Overflow,
}

/// The words in which an overflow is reported.
pub open spec fn overflow_message() -> Seq<char> {
    "count out of range"@
}

impl CountError {
    /// The error in words.
    pub fn message(&self) -> (text: String)
        ensures
            text@ == overflow_message(),
    {
        String::from_str("count out of range")
    }
}

/// Counts one line of text.
pub fn count_line(line: &str) -> (info: FileInfo)
    ensures
        info@ == line_counts(line@),
        info.wf(),
{
    proof {
        lemma_word_count_le_len(line@);
        lemma_encode_len(line@);
    }
    let (num_words, num_chars) = count_words_and_chars(line);
    FileInfo { num_lines: 1, num_words, num_bytes: line.as_bytes().len(), num_chars }
}

/// Counts the stream of `reader`.
///
/// The counts are those of `counts_of`. They are reported whenever they
/// can be held, which is certain for a stream of valid UTF-8; a count out of
/// range is the only error. A reported count has one line per terminator
/// and one more for a last fragment without terminator, and never fewer
/// bytes than characters. Valid UTF-8 has as many bytes counted as it
/// holds, and as many characters as bytes exactly when it is pure ASCII.
pub fn count(reader: Reader) -> (result: Result<FileInfo, CountError>)
    ensures
        counts_of(reader@).fits() ==> result is Ok && result->Ok_0@ == counts_of(reader@),
        !counts_of(reader@).fits() ==> result == Err::<FileInfo, CountError>(
            CountError::Overflow,
        ),
        valid_utf8(reader@) ==> result is Ok && result->Ok_0.num_bytes == reader@.len(),
        valid_utf8(reader@) ==> (result->Ok_0.num_chars == reader@.len() <==> is_ascii_bytes(
            reader@,
        )),
        is_ascii_bytes(reader@) ==> result is Ok && result->Ok_0.num_chars == reader@.len(),
        result matches Ok(info) ==> info.num_lines == newline_count(reader@) + if ends_unterminated(
            reader@,
        ) {
            1nat
        } else {
            0nat
        },
        result matches Ok(info) ==> info.wf(),
{
    let mut reader = reader;
    let mut info = FileInfo::zero();
    let mut overflow = false;
    let length = reader.remaining();
    let ghost all = reader@;
    let ghost done: Seq<Seq<u8>> = Seq::empty();
    proof {
        assert(done + split_lines(reader@) =~= split_lines(all));
    }
    loop
        invariant_except_break
            done + split_lines(reader@) == split_lines(all),
            info@ == tally(decode_lines(done)),
            !overflow,
        ensures
            overflow ==> !counts_of(all).fits(),
            !overflow ==> info@ == counts_of(all),
        decreases reader@.len(),
    {
        let ghost before = reader@;
        match reader.next_line() {
            None => {
                assert(done =~= split_lines(all));
                break ;
            },
            Some(line) => {
                let ghost raw = before.take(first_line_len(before));
                proof {
                    lemma_line_end_bounds(before, 0);
                    assert(decode_lines(done.push(raw)).drop_last() =~= decode_lines(done));
                    assert(done.push(raw) + split_lines(reader@) =~= done + split_lines(before));
                    let lines = decode_lines(split_lines(all));
                    let k = done.len() as int + 1;
                    assert(split_lines(all).take(k) =~= done.push(raw));
                    assert(lines.take(k) =~= decode_lines(done.push(raw)));
                    lemma_tally_prefix(lines, k);
                }
                match info.checked_add(&count_line(line.as_str())) {
                    Some(sum) => {
                        info = sum;
                    },
                    None => {
                        overflow = true;
                        break ;
                    },
                }
                proof {
                    done = done.push(raw);
                }
            },
        }
    }
    proof {
        if is_ascii_bytes(all) {
            lemma_ascii_is_valid(all);
        }
        if valid_utf8(all) {
            lemma_counts_of_valid(all);
            lemma_counts_bytes_chars(all);
            assert(counts_of(all).bytes == length);
        }
        lemma_line_count(all);
        lemma_tally_of_text(decode_lines(split_lines(all)));
    }
    if overflow {
        return Err(CountError::Overflow);
    }
    Ok(info)
}

/// Which counts to report, and for which sources.
#[derive(Debug)]
pub struct Config {
    /// The sources, in the order in which they are counted.
    pub files: Vec<String>,
    /// Report the lines.
    pub lines: bool,
    /// Report the words.
    pub words: bool,
    /// Report the bytes.
    pub bytes: bool,
    /// Report the characters.
    pub chars: bool,
}

impl Config {
    /// True when at least one count is requested.
    pub open spec fn wf(&self) -> bool {
        self.lines || self.words || self.bytes || self.chars
    }

    /// A configuration for the given sources and requested counts. Where no
    /// count is requested, lines, words and bytes are reported.
    pub fn new(files: Vec<String>, lines: bool, words: bool, bytes: bool, chars: bool) -> (config:
        Config)
        ensures
            config.wf(),
            config.files == files,
            lines || words || bytes || chars ==> config.lines == lines && config.words == words
                && config.bytes == bytes && config.chars == chars,
            !(lines || words || bytes || chars) ==> config.lines && config.words && config.bytes
                && !config.chars,
    {
        if lines || words || bytes || chars {
            Config { files, lines, words, bytes, chars }
        } else {
            Config { files, lines: true, words: true, bytes: true, chars: false }
        }
    }
}

/// The label of the record that sums a batch up.
pub open spec fn total_label() -> Seq<char> {
    "total"@
}

/// One count in its column, or nothing where the count is not requested.
pub open spec fn shown(requested: bool, n: nat) -> Seq<char> {
    if requested {
        column(n, COUNT_WIDTH as nat)
    } else {
        Seq::empty()
    }
}

/// The record of one source: the requested counts in the order lines,
/// words, bytes, characters, each in its column; then a space, the label
/// and a line feed.
pub open spec fn report_line(config: &Config, counts: Counts, label: Seq<char>) -> Seq<char> {
    shown(config.lines, counts.lines) + shown(config.words, counts.words) + shown(
        config.bytes,
        counts.bytes,
    ) + shown(config.chars, counts.chars) + seq![' '] + label + seq!['\n']
}

/// Appends one count in its column to `out`, where it is requested.
fn push_shown(out: &mut String, requested: bool, n: usize)
    ensures
        final(out)@ == old(out)@ + shown(requested, n as nat),
{
    if requested {
        push_column(out, n, COUNT_WIDTH);
    }
    assert(out@ =~= old(out)@ + shown(requested, n as nat));
}

/// Appends the record of one source to `out`.
pub fn push_report_line(out: &mut String, config: &Config, info: &FileInfo, label: &str)
    ensures
        final(out)@ == old(out)@ + report_line(config, info@, label@),
{
    push_shown(out, config.lines, info.num_lines);
    push_shown(out, config.words, info.num_words);
    push_shown(out, config.bytes, info.num_bytes);
    push_shown(out, config.chars, info.num_chars);
    proof {
        reveal_strlit(" ");
        reveal_strlit("\n");
    }
    out.append(" ");
    out.append(label);
    out.append("\n");
    proof {
        lemma_joined_parts(
            old(out)@,
            shown(config.lines, info@.lines),
            shown(config.words, info@.words),
            shown(config.bytes, info@.bytes),
            shown(config.chars, info@.chars),
            " "@,
            label@,
            "\n"@,
        );
        assert(" "@ =~= seq![' ']);
        assert("\n"@ =~= seq!['\n']);
    }
}

/// Parts appended one after the other make up the first followed by the
/// rest, joined.
proof fn lemma_joined_parts(
    start: Seq<char>,
    a: Seq<char>,
    b: Seq<char>,
    c: Seq<char>,
    d: Seq<char>,
    e: Seq<char>,
    f: Seq<char>,
    g: Seq<char>,
)
    ensures
        start + a + b + c + d + e + f + g == start + (a + b + c + d + e + f + g),
{
    assert(start + a + b + c + d + e + f + g =~= start + (a + b + c + d + e + f + g));
}

/// The state of a batch after some of its sources.
pub struct Progress {
    /// What was written to the standard output.
    pub out: Seq<char>,
    /// What was written to the standard error.
    pub err: Seq<char>,
    /// The sum of the counts reported so far; `None` once it cannot be held.
    pub total: Option<Counts>,
}

/// The running total after one more record.
pub open spec fn add_to_total(total: Option<Counts>, counts: Counts) -> Option<Counts> {
    match total {
        Some(sum) => if sum.plus(counts).fits() {
            Some(sum.plus(counts))
        } else {
            None
        },
        None => None,
    }
}

/// The state of a batch after the sources that `inputs` stands for, taken
/// in order. A source that was opened and whose counts can be held adds its
/// record to the output and its counts to the total. Any other source adds
/// one line to the errors: the failure to open it, or the count that is out
/// of range.
pub open spec fn progress(config: &Config, inputs: Seq<Result<Vec<u8>, OpenError>>) -> Progress
    decreases inputs.len(),
{
    if inputs.len() == 0 {
        Progress { out: Seq::empty(), err: Seq::empty(), total: Some(Counts::zero()) }
    } else {
        let before = progress(config, inputs.drop_last());
        let name = config.files@[inputs.len() - 1]@;
        match inputs.last() {
            Ok(data) => if counts_of(data@).fits() {
                Progress {
                    out: before.out + report_line(config, counts_of(data@), name),
                    err: before.err,
                    total: add_to_total(before.total, counts_of(data@)),
                }
            } else {
                Progress {
                    out: before.out,
                    err: before.err + failure_line(name, overflow_message()),
                    total: before.total,
                }
            },
            Err(error) => Progress {
                out: before.out,
                err: before.err + failure_line(error.source@, error.cause@),
                total: before.total,
            },
        }
    }
}

/// What a batch writes to the standard output: the record of every source
/// that was counted, in order, and after them the record of the total where
/// the batch has more than one source.
pub open spec fn batch_out(config: &Config, inputs: Seq<Result<Vec<u8>, OpenError>>) -> Seq<char> {
    let end = progress(config, inputs);
    if config.files@.len() > 1 && end.total is Some {
        end.out + report_line(config, end.total->0, total_label())
    } else {
        end.out
    }
}

/// What a batch writes to the standard error: one line for every source that
/// was not counted, in order, and one for a total that is out of range.
pub open spec fn batch_err(config: &Config, inputs: Seq<Result<Vec<u8>, OpenError>>) -> Seq<char> {
    let end = progress(config, inputs);
    if config.files@.len() > 1 && end.total is None {
        end.err + failure_line(total_label(), overflow_message())
    } else {
        end.err
    }
}

/// Counts a batch. `inputs` holds, for each source of `config` in order,
/// the bytes read from it or the error with which opening it failed. A
/// source that failed is reported and skipped; the others are counted and
/// summed up.
pub fn run(config: &Config, inputs: &Vec<Result<Vec<u8>, OpenError>>) -> (emission: Emission)
    requires
        inputs@.len() == config.files@.len(),
    ensures
        emission.out@ == batch_out(config, inputs@),
        emission.err@ == batch_err(config, inputs@),
{
    let mut out = String::new();
    let mut err = String::new();
    let mut total: Option<FileInfo> = Some(FileInfo::zero());
    let mut i: usize = 0;
    while i < inputs.len()
        invariant
            i <= inputs.len(),
            inputs@.len() == config.files@.len(),
            out@ == progress(config, inputs@.take(i as int)).out,
            err@ == progress(config, inputs@.take(i as int)).err,
            total is Some <==> progress(config, inputs@.take(i as int)).total is Some,
            total matches Some(sum) ==> sum@ == progress(config, inputs@.take(i as int)).total->0,
        decreases inputs.len() - i,
    {
        proof {
            assert(inputs@.take(i + 1).drop_last() =~= inputs@.take(i as int));
        }
        let name = config.files[i].as_str();
        match &inputs[i] {
            Ok(data) => match count(Reader::new(data.as_slice())) {
                Ok(info) => {
                    push_report_line(&mut out, config, &info, name);
                    total =
                    match total {
                        Some(sum) => sum.checked_add(&info),
                        None => None,
                    };
                },
                Err(error) => {
                    push_failure_line(&mut err, name, error.message().as_str());
                },
            },
            Err(error) => {
                push_failure_line(&mut err, error.source.as_str(), error.cause.as_str());
            },
        }
        i = i + 1;
    }
    assert(inputs@.take(inputs.len() as int) =~= inputs@);
    if config.files.len() > 1 {
        match total {
            Some(sum) => {
                push_report_line(&mut out, config, &sum, "total");
            },
            None => {
                push_failure_line(&mut err, "total", CountError::Overflow.message().as_str());
            },
        }
    }
    Emission { out, err }
}

} // verus!
