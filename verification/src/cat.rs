//! Copying a stream, optionally with line numbers.
//!
//! Every line is emitted as it was read, terminator included. A numbered
//! line is preceded by its number, right-aligned in six columns, and a tab.
//! Numbers start at 1 for every source.

use crate::lines::{first_line_len, lemma_line_count_le_len, lemma_line_end_bounds, split_lines};
use crate::number::{column, push_column};
use crate::reader::Reader;
use crate::source::{failure_line, Emission, OpenError};
use crate::text::{decode_lines, decoded_text, lemma_decoded_text_roundtrip, lemma_encode_len};
use vstd::prelude::*;
use vstd::string::{StrSliceExecFns, StringExecFns};
use vstd::utf8::{encode_utf8, is_ascii_chars, valid_utf8};

verus! {

/// Width of the column that holds a line number.
pub const NUMBER_WIDTH: usize = 6;

/// Which lines get a number.
#[derive(Debug, Clone, Copy, PartialEq, Eq, Structural)]
pub enum Numbering {
    /// No line is numbered.
    Off,
    /// Every line is numbered.
    All,
    /// Lines with content are numbered; blank lines are emitted bare and do
    /// not advance the count.
    NonBlank,
}

/// What to copy, and how to number it.
#[derive(Debug)]
pub struct Config {
    /// The sources, in the order in which they are copied.
    pub files: Vec<String>,
    /// Number every line.
    pub number_lines: bool,
    /// Number the lines that are not blank.
    pub number_nonblank_lines: bool,
}

impl Config {
    /// The numbering that the two switches select. Numbering every line
    /// wins where both are set.
    pub open spec fn spec_numbering(&self) -> Numbering {
        if self.number_lines {
            Numbering::All
        } else if self.number_nonblank_lines {
            Numbering::NonBlank
        } else {
            Numbering::Off
        }
    }

    /// A configuration for the given sources and switches.
    pub fn new(files: Vec<String>, number_lines: bool, number_nonblank_lines: bool) -> (config:
        Config)
        ensures
            config.files == files,
            config.number_lines == number_lines,
            config.number_nonblank_lines == number_nonblank_lines,
    {
        Config { files, number_lines, number_nonblank_lines }
    }

    /// The numbering that the two switches select.
    #[verifier::when_used_as_spec(spec_numbering)]
    pub fn numbering(&self) -> (mode: Numbering)
        ensures
            mode == self.spec_numbering(),
    {
        if self.number_lines {
            Numbering::All
        } else if self.number_nonblank_lines {
            Numbering::NonBlank
        } else {
            Numbering::Off
        }
    }
}

/// A line without its terminator: a final line feed is dropped, and a
/// carriage return before it.
pub open spec fn line_content(line: Seq<char>) -> Seq<char> {
    if line.len() > 0 && line.last() == '\n' {
        let body = line.drop_last();
        if body.len() > 0 && body.last() == '\r' {
            body.drop_last()
        } else {
            body
        }
    } else {
        line
    }
}

/// True when nothing but the terminator is on the line.
pub open spec fn is_blank(line: Seq<char>) -> bool {
    line_content(line).len() == 0
}

/// True when `line` gets a number under `mode`.
pub open spec fn is_numbered(mode: Numbering, line: Seq<char>) -> bool {
    mode == Numbering::All || (mode == Numbering::NonBlank && !is_blank(line))
}

/// How many of `lines` get a number under `mode`.
pub open spec fn numbered_count(mode: Numbering, lines: Seq<Seq<char>>) -> nat
    decreases lines.len(),
{
    if lines.len() == 0 {
        0
    } else {
        numbered_count(mode, lines.drop_last()) + if is_numbered(mode, lines.last()) {
            1nat
        } else {
            0nat
        }
    }
}

/// What precedes a numbered line: the number in its column, and a tab.
pub open spec fn number_prefix(n: nat) -> Seq<char> {
    column(n, NUMBER_WIDTH as nat) + seq!['\t']
}

/// What one line adds to the copy when `before` lines have been numbered
/// ahead of it: the line as it is, after the prefix with the next number
/// where the line is numbered.
pub open spec fn emitted_line(mode: Numbering, before: nat, line: Seq<char>) -> Seq<char> {
    if is_numbered(mode, line) {
        number_prefix(before + 1) + line
    } else {
        line
    }
}

/// The copy of `lines` under `mode`: what each line adds, in order.
pub open spec fn numbered(mode: Numbering, lines: Seq<Seq<char>>) -> Seq<char>
    decreases lines.len(),
{
    if lines.len() == 0 {
        Seq::empty()
    } else {
        numbered(mode, lines.drop_last()) + emitted_line(
            mode,
            numbered_count(mode, lines.drop_last()),
            lines.last(),
        )
    }
}

/// The copy of the stream `bytes` under `mode`.
pub open spec fn copy_of(mode: Numbering, bytes: Seq<u8>) -> Seq<char> {
    numbered(mode, decode_lines(split_lines(bytes)))
}

/// At most every line gets a number.
pub proof fn lemma_numbered_count_le(mode: Numbering, lines: Seq<Seq<char>>)
    ensures
        numbered_count(mode, lines) <= lines.len(),
        mode == Numbering::All ==> numbered_count(mode, lines) == lines.len(),
        mode == Numbering::Off ==> numbered_count(mode, lines) == 0,
    decreases lines.len(),
{
    if lines.len() > 0 {
        lemma_numbered_count_le(mode, lines.drop_last());
    }
}

/// Without numbering the copy is the lines, joined.
pub proof fn lemma_numbered_off(lines: Seq<Seq<char>>)
    ensures
        numbered(Numbering::Off, lines) == lines.flatten(),
    decreases lines.len(),
{
    lines.lemma_flatten_and_flatten_alt_are_equivalent();
    if lines.len() > 0 {
        lemma_numbered_off(lines.drop_last());
        lines.drop_last().lemma_flatten_and_flatten_alt_are_equivalent();
    }
}

/// Round trip: copying valid UTF-8 without numbering reproduces the stream
/// byte for byte.
pub proof fn lemma_copy_roundtrip(bytes: Seq<u8>)
    requires
        valid_utf8(bytes),
    ensures
        encode_utf8(copy_of(Numbering::Off, bytes)) == bytes,
{
    lemma_numbered_off(decode_lines(split_lines(bytes)));
    lemma_decoded_text_roundtrip(bytes);
}

/// Tells whether nothing but the terminator is on `line`.
pub fn is_blank_line(line: &str) -> (blank: bool)
    ensures
        blank == is_blank(line@),
{
    if line.as_bytes().len() > 2 {
        proof {
            lemma_encode_len(line@);
            if is_blank(line@) {
                assert(line@.len() <= 2);
                assert(is_ascii_chars(line@));
            }
        }
        return false;
    }
    let len = line.unicode_len();
    if len == 0 {
        true
    } else if len == 1 {
        line.get_char(0) == '\n'
    } else if len == 2 {
        line.get_char(0) == '\r' && line.get_char(1) == '\n'
    } else {
        false
    }
}

/// Appends one line to the copy in `out`. `before` is the number of lines
/// numbered ahead of it; the result is that number with this line counted.
pub fn push_line(out: &mut String, mode: Numbering, before: usize, line: &str) -> (after: usize)
    requires
        before < usize::MAX,
    ensures
        final(out)@ == old(out)@ + emitted_line(mode, before as nat, line@),
        after == before + if is_numbered(mode, line@) {
            1nat
        } else {
            0nat
        },
{
    let numbered = match mode {
        Numbering::Off => false,
        Numbering::All => true,
        Numbering::NonBlank => !is_blank_line(line),
    };
    let after = if numbered {
        proof {
            reveal_strlit("\t");
        }
        push_column(out, before + 1, NUMBER_WIDTH);
        out.append("\t");
        before + 1
    } else {
        before
    };
    out.append(line);
    assert(out@ =~= old(out)@ + emitted_line(mode, before as nat, line@));
    after
}

/// Copies the stream of `reader` under the numbering of `config`.
pub fn print(config: &Config, reader: Reader) -> (out: String)
    ensures
        out@ == copy_of(config.numbering(), reader@),
        config.numbering() == Numbering::Off ==> out@ == decoded_text(reader@),
        config.numbering() == Numbering::Off && valid_utf8(reader@) ==> encode_utf8(out@)
            == reader@,
{
    let mode = config.numbering();
    let mut reader = reader;
    let mut out = String::new();
    let mut number: usize = 0;
    let total = reader.remaining();
    let ghost all = reader@;
    let ghost done: Seq<Seq<u8>> = Seq::empty();
    assert(done + split_lines(reader@) =~= split_lines(all));
    loop
        invariant
            done + split_lines(reader@) == split_lines(all),
            out@ == numbered(mode, decode_lines(done)),
            number == numbered_count(mode, decode_lines(done)),
            total == all.len(),
        ensures
            reader@.len() == 0,
        decreases reader@.len(),
    {
        let ghost before = reader@;
        match reader.next_line() {
            None => {
                break ;
            },
            Some(line) => {
                let ghost raw = before.take(first_line_len(before));
                proof {
                    lemma_line_end_bounds(before, 0);
                    lemma_numbered_count_le(mode, decode_lines(done));
                    lemma_line_count_le_len(all);
                    assert(decode_lines(done.push(raw)).drop_last() =~= decode_lines(done));
                    assert(done.push(raw) + split_lines(reader@) =~= done + split_lines(before));
                }
                number = push_line(&mut out, mode, number, line.as_str());
                proof {
                    done = done.push(raw);
                    assert(out@ =~= numbered(mode, decode_lines(done)));
                }
            },
        }
    }
    proof {
        assert(done =~= split_lines(all));
        lemma_numbered_off(decode_lines(split_lines(all)));
        if valid_utf8(all) {
            lemma_decoded_text_roundtrip(all);
        }
    }
    out
}

/// What a batch writes to the standard output: the copy of every source
/// that was opened, in order.
pub open spec fn batch_out(mode: Numbering, inputs: Seq<Result<Vec<u8>, OpenError>>) -> Seq<char>
    decreases inputs.len(),
{
    if inputs.len() == 0 {
        Seq::empty()
    } else {
        batch_out(mode, inputs.drop_last()) + match inputs.last() {
            Ok(data) => copy_of(mode, data@),
            Err(_) => Seq::empty(),
        }
    }
}

/// The report of a source that could not be opened.
pub open spec fn open_failure(error: OpenError) -> Seq<char> {
    "Failed to open "@ + failure_line(error.source@, error.cause@)
}

/// What a batch writes to the standard error: one line for every source
/// that could not be opened, in order.
pub open spec fn batch_err(inputs: Seq<Result<Vec<u8>, OpenError>>) -> Seq<char>
    decreases inputs.len(),
{
    if inputs.len() == 0 {
        Seq::empty()
    } else {
        batch_err(inputs.drop_last()) + match inputs.last() {
            Ok(_) => Seq::empty(),
            Err(error) => open_failure(error),
        }
    }
}

/// Copies a batch. `inputs` holds, for each source of `config` in order,
/// the bytes read from it or the error with which opening it failed. A
/// source that failed is reported and skipped; the others are copied, each
/// numbered from 1.
pub fn run(config: &Config, inputs: &Vec<Result<Vec<u8>, OpenError>>) -> (emission: Emission)
    ensures
        emission.out@ == batch_out(config.numbering(), inputs@),
        emission.err@ == batch_err(inputs@),
{
    let mut out = String::new();
    let mut err = String::new();
    let mut i: usize = 0;
    while i < inputs.len()
        invariant
            i <= inputs.len(),
            out@ == batch_out(config.numbering(), inputs@.take(i as int)),
            err@ == batch_err(inputs@.take(i as int)),
        decreases inputs.len() - i,
    {
        proof {
            assert(inputs@.take(i + 1).drop_last() =~= inputs@.take(i as int));
        }
        match &inputs[i] {
            Ok(data) => {
                let copy = print(config, Reader::new(data.as_slice()));
                out.append(copy.as_str());
            },
            Err(error) => {
                err.append("Failed to open ");
                crate::source::push_failure_line(&mut err, error.source.as_str(), error.cause.as_str());
            },
        }
        i = i + 1;
        assert(out@ =~= batch_out(config.numbering(), inputs@.take(i as int)));
        assert(err@ =~= batch_err(inputs@.take(i as int)));
    }
    assert(inputs@.take(inputs.len() as int) =~= inputs@);
    Emission { out, err }
}

} // verus!
