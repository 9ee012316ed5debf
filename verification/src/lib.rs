//! Verified building blocks for line-oriented text tools: copying a stream
//! with or without line numbers, keeping its first lines or bytes, and
//! counting its lines, words, bytes and characters.
//!
//! The library works on bytes that the caller has read and returns the text
//! to write. `lines` says where lines end, `text` how bytes decode, and
//! `reader` hands a stream out piece by piece. `cat`, `head` and `wc` build
//! the three tools on them, each with a `run` over a batch of sources;
//! `uniq` holds a configuration only. `number`, `words` and `source` are
//! what the tools share.

pub mod cat;
pub mod head;
pub mod lines;
pub mod number;
pub mod reader;
pub mod source;
pub mod text;
pub mod uniq;
pub mod wc;
pub mod words;
