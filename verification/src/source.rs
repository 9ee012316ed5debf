//! Sources of a batch, and what a batch emits.
//!
//! Opening and reading a source is the caller's work. The library decides
//! what an identifier selects, and takes for each source either the bytes
//! that were read or the error with which opening failed.

use vstd::prelude::*;
use vstd::string::{StrSliceExecFns, StringExecFns};

verus! {

/// What a source identifier selects.
#[derive(Debug, PartialEq, Eq)]
pub enum Source {
    /// The standard input stream, selected by `-`.
    Stdin,
    /// The file at the given path.
    File(String),
}

/// A source that could not be opened.
#[derive(Debug, PartialEq, Eq)]
pub struct OpenError {
    /// The identifier of the source.
    pub source: String,
    /// Why it could not be opened, in words.
    pub cause: String,
}

/// What one run writes to its two output channels.
#[derive(Debug, PartialEq, Eq)]
pub struct Emission {
    /// Text for the standard output.
    pub out: String,
    /// Text for the standard error: one line per failure.
    pub err: String,
}

/// The identifier that selects the standard input.
pub open spec fn stdin_name() -> Seq<char> {
    seq!['-']
}

/// The report of a failure on the standard error: the identifier, a colon
/// and the cause, on a line of its own.
pub open spec fn failure_line(source: Seq<char>, cause: Seq<char>) -> Seq<char> {
    source + seq![':', ' '] + cause + seq!['\n']
}

/// Tells the standard input from a named file. The identifier `-` always
/// selects the standard input; any other identifier is a path.
pub fn resolve(name: &str) -> (source: Source)
    ensures
        name@ == stdin_name() ==> source == Source::Stdin,
        name@ != stdin_name() ==> (source matches Source::File(path) && path@ == name@),
{
    let len = name.unicode_len();
    if len == 1 && name.get_char(0) == '-' {
        assert(name@ =~= stdin_name());
        Source::Stdin
    } else {
        Source::File(String::from_str(name))
    }
}

/// Appends the report of one failure to `err`.
pub fn push_failure_line(err: &mut String, source: &str, cause: &str)
    ensures
        final(err)@ == old(err)@ + failure_line(source@, cause@),
{
    proof {
        reveal_strlit(": ");
        reveal_strlit("\n");
    }
    err.append(source);
    err.append(": ");
    err.append(cause);
    err.append("\n");
    assert(err@ =~= old(err)@ + failure_line(source@, cause@));
}

} // verus!
