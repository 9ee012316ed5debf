//! The start of a stream: its first lines, or its first bytes.
//!
//! A limit in lines keeps whole lines, terminators included. A limit in
//! bytes cuts the raw stream wherever the count falls, also inside a
//! character or a line, and decodes what it has cut off.

use crate::lines::{first_line_len, lemma_line_end_bounds, split_lines};
use crate::reader::{at_most, Reader};
use crate::source::{failure_line, push_failure_line, Emission, OpenError};
use crate::text::{decode, decode_lines, decoded_text, lemma_decoded_text_roundtrip, lossy_decode};
use vstd::prelude::*;
use vstd::string::StringExecFns;
use vstd::utf8::{encode_utf8, valid_utf8};

verus! {

/// The number of lines kept where no limit is given.
pub const DEFAULT_LINES: usize = 10;

/// How much of each source to keep.
#[derive(Debug, Clone, Copy, PartialEq, Eq, Structural)]
pub enum Limit {
    /// That many lines.
    Lines(usize),
    /// That many raw bytes.
    Bytes(usize),
}

/// What to truncate, and where.
#[derive(Debug)]
pub struct Config {
    /// The sources, in the order in which they are emitted.
    pub files: Vec<String>,
    /// The limit in lines, used where no limit in bytes is set.
    pub lines: usize,
    /// The limit in bytes, if one is set.
    pub bytes: Option<usize>,
}

/// A limit that is no positive number.
#[derive(Debug, PartialEq, Eq)]
pub enum ConfigError {
    /// The text given for the limit in lines.
    IllegalLineCount(String),
    /// The text given for the limit in bytes.
    IllegalByteCount(String),
}

/// True when `c` is a decimal digit.
pub open spec fn is_digit(c: char) -> bool {
    '0' <= c <= '9'
}

/// True when `s` holds decimal digits only.
pub open spec fn all_digits(s: Seq<char>) -> bool {
    forall|i: int| 0 <= i < s.len() ==> is_digit(#[trigger] s[i])
}

/// The number that the decimal digits `s` write; 0 for no digits.
pub open spec fn digits_value(s: Seq<char>) -> nat
    decreases s.len(),
{
    if s.len() == 0 {
        0
    } else {
        (digits_value(s.drop_last()) * 10 + (s.last() as int - 48)) as nat
    }
}

/// `s` without a leading plus sign.
pub open spec fn unsigned_part(s: Seq<char>) -> Seq<char> {
    if s.len() > 0 && s[0] == '+' {
        s.drop_first()
    } else {
        s
    }
}

/// The positive number that `s` writes in decimal, with or without a plus
/// sign before its digits. Nothing else is a number: not the empty text,
/// not zero, not a text with any other character, and not a number beyond
/// the range of `usize`.
pub open spec fn positive_int(s: Seq<char>) -> Option<nat> {
    let digits = unsigned_part(s);
    if digits.len() > 0 && all_digits(digits) && 0 < digits_value(digits) <= usize::MAX {
        Some(digits_value(digits))
    } else {
        None
    }
}

/// The digits read so far write no more than all the digits do.
pub proof fn lemma_digits_prefix(s: Seq<char>, k: int)
    requires
        0 <= k <= s.len(),
        all_digits(s),
    ensures
        all_digits(s.take(k)),
        digits_value(s.take(k)) <= digits_value(s),
    decreases s.len(),
{
    if k == s.len() {
        assert(s.take(k) =~= s);
    } else {
        let init = s.drop_last();
        assert(init.take(k) =~= s.take(k));
        assert(is_digit(s.last()));
        assert forall|i: int| 0 <= i < init.len() implies is_digit(#[trigger] init[i]) by {
            assert(init[i] == s[i]);
        }
        lemma_digits_prefix(init, k);
    }
}

/// Reads a positive number. The error is the text that is none.
pub fn parse_positive_int(val: &str) -> (result: Result<usize, String>)
    ensures
        positive_int(val@) matches Some(n) ==> result == Ok::<usize, String>(n as usize),
        positive_int(val@) is None ==> result is Err && result->Err_0@ == val@,
{
    let mut value: usize = 0;
    let mut first = true;
    let mut empty = true;
    for c in it: val.chars()
        invariant
            it.seq() == val@,
            first == (it.index() == 0),
            all_digits(unsigned_part(val@.take(it.index() as int))),
            value == digits_value(unsigned_part(val@.take(it.index() as int))),
            empty == (unsigned_part(val@.take(it.index() as int)).len() == 0),
    {
        let ghost seen = val@.take(it.index() as int);
        let ghost next = val@.take(it.index() + 1);
        let ghost whole = unsigned_part(val@);
        proof {
            assert(next.drop_last() =~= seen);
            assert(next.last() == c);
            if it.index() > 0 {
                assert(unsigned_part(next) =~= unsigned_part(seen).push(c));
                assert(unsigned_part(next).drop_last() =~= unsigned_part(seen));
            } else if c == '+' {
                assert(unsigned_part(next) =~= Seq::<char>::empty());
            } else {
                assert(unsigned_part(next) =~= seq![c]);
                assert(unsigned_part(next).drop_last() =~= unsigned_part(seen));
            }
            assert(unsigned_part(next) =~= whole.take(unsigned_part(next).len() as int));
        }
        if !(first && c == '+') {
            if c < '0' || c > '9' {
                proof {
                    let at = unsigned_part(next).len() - 1;
                    assert(whole[at] == c);
                }
                return Err(String::from_str(val));
            }
            let digit = (c as u32 - '0' as u32) as usize;
            if value > (usize::MAX - digit) / 10 {
                proof {
                    if all_digits(whole) {
                        lemma_digits_prefix(whole, unsigned_part(next).len() as int);
                    }
                }
                return Err(String::from_str(val));
            }
            value = value * 10 + digit;
            empty = false;
        }
        first = false;
    }
    proof {
        assert(val@.take(val@.len() as int) =~= val@);
    }
    if empty || value == 0 {
        Err(String::from_str(val))
    } else {
        Ok(value)
    }
}

/// True when `text`, where it is given, is a positive number.
pub open spec fn is_legal(text: Option<&str>) -> bool {
    text matches Some(given) ==> positive_int(given@) is Some
}

impl ConfigError {
    /// The error in words: which limit is illegal, and the text given for it.
    pub open spec fn spec_message(&self) -> Seq<char> {
        match self {
            ConfigError::IllegalLineCount(given) => "illegal line count -- "@ + given@,
            ConfigError::IllegalByteCount(given) => "illegal byte count -- "@ + given@,
        }
    }

    /// The error in words.
    pub fn message(&self) -> (text: String)
        ensures
            text@ == self.spec_message(),
    {
        match self {
            ConfigError::IllegalLineCount(given) => {
                let mut text = String::from_str("illegal line count -- ");
                text.append(given.as_str());
                text
            },
            ConfigError::IllegalByteCount(given) => {
                let mut text = String::from_str("illegal byte count -- ");
                text.append(given.as_str());
                text
            },
        }
    }
}

impl Config {
    /// The limit in force: the one in bytes where it is set, else the one
    /// in lines.
    pub open spec fn spec_limit(&self) -> Limit {
        match self.bytes {
            Some(count) => Limit::Bytes(count),
            None => Limit::Lines(self.lines),
        }
    }

    /// True when every limit is positive.
    pub open spec fn wf(&self) -> bool {
        self.lines > 0 && (self.bytes matches Some(count) ==> count > 0)
    }

    /// A configuration from the limits as they were given in text. The
    /// limit in lines is read first and is `DEFAULT_LINES` where none is
    /// given; each limit that is given must be a positive number.
    pub fn from_args(files: Vec<String>, lines: Option<&str>, bytes: Option<&str>) -> (result:
        Result<Config, ConfigError>)
        ensures
            !is_legal(lines) ==> (result matches Err(ConfigError::IllegalLineCount(given))
                && given@ == lines->0@),
            is_legal(lines) && !is_legal(bytes) ==> (result matches Err(
                ConfigError::IllegalByteCount(given),
            ) && given@ == bytes->0@),
            is_legal(lines) && is_legal(bytes) ==> (result matches Ok(config) && config.wf()
                && config.files == files && config.lines == match lines {
                Some(given) => positive_int(given@)->0 as usize,
                None => DEFAULT_LINES,
            } && config.bytes == match bytes {
                Some(given) => Some(positive_int(given@)->0 as usize),
                None => None,
            }),
    {
        let lines = match lines {
            Some(text) => match parse_positive_int(text) {
                Ok(count) => count,
                Err(given) => {
                    return Err(ConfigError::IllegalLineCount(given));
                },
            },
            None => DEFAULT_LINES,
        };
        let bytes = match bytes {
            Some(text) => match parse_positive_int(text) {
                Ok(count) => Some(count),
                Err(given) => {
                    return Err(ConfigError::IllegalByteCount(given));
                },
            },
            None => None,
        };
        Ok(Config { files, lines, bytes })
    }

    /// The limit in force.
    #[verifier::when_used_as_spec(spec_limit)]
    pub fn limit(&self) -> (limit: Limit)
        ensures
            limit == self.spec_limit(),
    {
        match self.bytes {
            Some(count) => Limit::Bytes(count),
            None => Limit::Lines(self.lines),
        }
    }
}

/// The first `n` lines of the stream `bytes`, or all of them where there
/// are fewer, decoded and joined.
pub open spec fn first_lines(n: nat, bytes: Seq<u8>) -> Seq<char> {
    decode_lines(
        split_lines(bytes).take(at_most(n as int, split_lines(bytes).len() as int)),
    ).flatten()
}

/// The first `n` bytes of the stream `bytes`, or all of them where there
/// are fewer, decoded.
pub open spec fn first_bytes(n: nat, bytes: Seq<u8>) -> Seq<char> {
    lossy_decode(bytes.take(at_most(n as int, bytes.len() as int)))
}

/// What `limit` keeps of the stream `bytes`.
pub open spec fn head_of(limit: Limit, bytes: Seq<u8>) -> Seq<char> {
    match limit {
        Limit::Lines(n) => first_lines(n as nat, bytes),
        Limit::Bytes(n) => first_bytes(n as nat, bytes),
    }
}

/// The first `n` lines of the stream of `reader`. A stream with no more
/// than `n` lines is emitted whole; where it is valid UTF-8, that is the
/// stream byte for byte.
pub fn lines(n: usize, reader: Reader) -> (out: String)
    ensures
        out@ == first_lines(n as nat, reader@),
        split_lines(reader@).len() <= n ==> out@ == decoded_text(reader@),
        split_lines(reader@).len() <= n && valid_utf8(reader@) ==> encode_utf8(out@) == reader@,
{
    let mut reader = reader;
    let mut out = String::new();
    let mut taken: usize = 0;
    let ghost all = reader@;
    let ghost done: Seq<Seq<u8>> = Seq::empty();
    proof {
        assert(done + split_lines(reader@) =~= split_lines(all));
        assert(done =~= split_lines(all).take(0));
        assert(decode_lines(done).flatten() =~= Seq::<char>::empty());
    }
    while taken < n
        invariant_except_break
            done + split_lines(reader@) == split_lines(all),
            out@ == decode_lines(done).flatten(),
            done == split_lines(all).take(taken as int),
            taken == done.len(),
            taken <= n,
            taken <= split_lines(all).len(),
        ensures
            out@ == first_lines(n as nat, all),
        decreases n - taken,
    {
        let ghost before = reader@;
        match reader.next_line() {
            None => {
                proof {
                    assert(done =~= split_lines(all));
                    assert(split_lines(all).take(split_lines(all).len() as int) =~= split_lines(
                        all,
                    ));
                }
                break ;
            },
            Some(line) => {
                let ghost raw = before.take(first_line_len(before));
                proof {
                    lemma_line_end_bounds(before, 0);
                    assert(done.push(raw) + split_lines(reader@) =~= done + split_lines(before));
                    assert(decode_lines(done.push(raw)) =~= decode_lines(done).push(
                        lossy_decode(raw),
                    ));
                    decode_lines(done).lemma_flatten_push(lossy_decode(raw));
                }
                out.append(line.as_str());
                taken = taken + 1;
                proof {
                    done = done.push(raw);
                    assert(split_lines(all).take(taken as int) =~= done);
                }
            },
        }
    }
    proof {
        if split_lines(all).len() <= n {
            assert(split_lines(all).take(split_lines(all).len() as int) =~= split_lines(all));
            if valid_utf8(all) {
                lemma_decoded_text_roundtrip(all);
            }
        }
    }
    out
}

/// The first `count` raw bytes of the stream of `reader`, decoded. Exactly
/// `count` bytes are cut off where the stream holds as many; where they are
/// valid UTF-8 the text encodes to just those bytes.
pub fn bytes(count: usize, reader: Reader) -> (out: String)
    ensures
        out@ == first_bytes(count as nat, reader@),
        valid_utf8(reader@.take(at_most(count as int, reader@.len() as int))) ==> encode_utf8(out@)
            == reader@.take(at_most(count as int, reader@.len() as int)),
{
    let mut reader = reader;
    let raw = reader.read_bytes(count);
    decode(raw.as_slice())
}

/// What the limit of `config` keeps of the stream of `reader`.
pub fn print(config: &Config, reader: Reader) -> (out: String)
    ensures
        out@ == head_of(config.limit(), reader@),
{
    match config.limit() {
        Limit::Bytes(count) => bytes(count, reader),
        Limit::Lines(count) => lines(count, reader),
    }
}

/// The line that announces a source in a batch of several.
pub open spec fn header(name: Seq<char>) -> Seq<char> {
    "==> "@ + name + " <==\n"@
}

/// What the source at `index` of a batch of `count` sources adds to the
/// standard output. In a batch of several sources a header precedes the
/// text, and a blank line follows it unless the source is the last.
pub open spec fn source_out(limit: Limit, name: Seq<char>, bytes: Seq<u8>, index: int, count: int) -> Seq<
    char,
> {
    if count > 1 {
        header(name) + head_of(limit, bytes) + if index != count - 1 {
            seq!['\n']
        } else {
            Seq::empty()
        }
    } else {
        head_of(limit, bytes)
    }
}

/// What a batch writes to the standard output: the share of every source
/// that was opened, in order.
pub open spec fn batch_out(config: &Config, inputs: Seq<Result<Vec<u8>, OpenError>>) -> Seq<char>
    decreases inputs.len(),
{
    if inputs.len() == 0 {
        Seq::empty()
    } else {
        batch_out(config, inputs.drop_last()) + match inputs.last() {
            Ok(data) => source_out(
                config.limit(),
                config.files@[inputs.len() - 1]@,
                data@,
                inputs.len() - 1,
                config.files@.len() as int,
            ),
            Err(_) => Seq::empty(),
        }
    }
}

/// What a batch writes to the standard error: one line for every source
/// that could not be opened, in order.
pub open spec fn batch_err(inputs: Seq<Result<Vec<u8>, OpenError>>) -> Seq<char>
    decreases inputs.len(),
{
    if inputs.len() == 0 {
        Seq::empty()
    } else {
        batch_err(inputs.drop_last()) + match inputs.last() {
            Ok(_) => Seq::empty(),
            Err(error) => failure_line(error.source@, error.cause@),
        }
    }
}

/// Truncates a batch. `inputs` holds, for each source of `config` in
/// order, the bytes read from it or the error with which opening it failed.
/// A source that failed is reported and skipped, without header.
pub fn run(config: &Config, inputs: &Vec<Result<Vec<u8>, OpenError>>) -> (emission: Emission)
    requires
        inputs@.len() == config.files@.len(),
    ensures
        emission.out@ == batch_out(config, inputs@),
        emission.err@ == batch_err(inputs@),
{
    let mut out = String::new();
    let mut err = String::new();
    let count = config.files.len();
    let mut i: usize = 0;
    while i < inputs.len()
        invariant
            i <= inputs.len(),
            inputs@.len() == config.files@.len(),
            count == config.files@.len(),
            out@ == batch_out(config, inputs@.take(i as int)),
            err@ == batch_err(inputs@.take(i as int)),
        decreases inputs.len() - i,
    {
        proof {
            assert(inputs@.take(i + 1).drop_last() =~= inputs@.take(i as int));
        }
        let ghost out_before = out@;
        match &inputs[i] {
            Ok(data) => {
                let text = print(config, Reader::new(data.as_slice()));
                if count > 1 {
                    proof {
                        reveal_strlit("\n");
                    }
                    out.append("==> ");
                    out.append(config.files[i].as_str());
                    out.append(" <==\n");
                    out.append(text.as_str());
                    if i != count - 1 {
                        out.append("\n");
                    }
                } else {
                    out.append(text.as_str());
                }
                assert(out@ =~= out_before + source_out(
                    config.limit(),
                    config.files@[i as int]@,
                    data@,
                    i as int,
                    count as int,
                ));
            },
            Err(error) => {
                push_failure_line(&mut err, error.source.as_str(), error.cause.as_str());
            },
        }
        i = i + 1;
    }
    assert(inputs@.take(inputs.len() as int) =~= inputs@);
    Emission { out, err }
}

} // verus!
