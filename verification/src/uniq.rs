//! The configuration of a run that collapses repeated lines.

use vstd::prelude::*;

verus! {

/// Where to read, where to write, and whether to count.
#[derive(Debug)]
pub struct Config {
    /// The source to read; `-` selects the standard input.
    pub input_file: String,
    /// The file to write, or the standard output where none is named.
    pub output_file: Option<String>,
    /// Precede every line by the number of times it occurred.
    pub count: bool,
}

impl Config {
    /// A configuration from its three parts.
    pub fn new(input_file: String, output_file: Option<String>, count: bool) -> (config: Config)
        ensures
            config.input_file == input_file,
            config.output_file == output_file,
            config.count == count,
    {
        Config { input_file, output_file, count }
    }
}

} // verus!
