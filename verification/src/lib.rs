//! Discovering the host triple of the installed `rustc` toolchain.
//!
//! The toolchain's verbose version report (`rustc -vV`) is a block of text
//! lines, one of which begins with `host: ` and carries the target triple of
//! the machine the compiler runs on.  This crate holds the verified half of
//! that discovery: given the raw bytes captured from the command's standard
//! output, it validates them as UTF-8, scans for the first line with the
//! `host: ` prefix, and returns the remainder of that line.  Spawning the
//! command itself is left to the (unverified) caller.

use vstd::prelude::*;

pub mod encoding;
pub mod scan;

verus! {

/// Why the host triple could not be extracted.
#[derive(Debug, PartialEq, Eq)]
pub enum Error {
    /// Running `rustc -vV` failed at the operating-system level; the payload
    /// is a textual description of the underlying error.  Never produced by
    /// the parsing functions of this crate; reserved for the caller that
    /// spawns the command.
    Io(String),
    /// The captured output was not valid UTF-8; the payload is the length of
    /// its longest valid prefix.
    Utf8(usize),
    /// The output decoded fine but no line begins with `host: `.
    UnexpectedOutputStructure,
}

/// Extracts the host triple from the captured standard output of
/// `rustc -vV`.
///
/// The bytes are first validated as UTF-8; if they are not, the call fails
/// with [`Error::Utf8`] carrying the length of the longest valid prefix, and
/// no line is scanned.  Otherwise the output is scanned line by line for the
/// first one beginning with `host: `, and everything after that prefix up to
/// the next line feed (or the end of the output) is returned, untrimmed.
/// When no such line exists the call fails with
/// [`Error::UnexpectedOutputStructure`].
pub fn host_from_output(stdout: Vec<u8>) -> (r: Result<String, Error>)
    ensures
        !vstd::utf8::valid_utf8(stdout@) ==> (r matches Err(e) && e matches Error::Utf8(p)
            && encoding::utf8_break_at(stdout@, p as int)),
        vstd::utf8::valid_utf8(stdout@) && scan::host_span_lines(stdout@) is None ==> r == Err::<
            String,
            Error,
        >(Error::UnexpectedOutputStructure),
        vstd::utf8::valid_utf8(stdout@) && scan::host_span_lines(stdout@) is Some ==> (r matches
        Ok(h) && h@ == vstd::utf8::decode_utf8(
            stdout@.subrange(
                scan::host_span_lines(stdout@)->Some_0.0,
                scan::host_span_lines(stdout@)->Some_0.1,
            ),
        )),
{
    match encoding::utf8_check(stdout.as_slice()) {
        Some(p) => Err(Error::Utf8(p)),
        None => match scan::find_host_lines(stdout.as_slice()) {
            None => Err(Error::UnexpectedOutputStructure),
            Some((a, b)) => {
                proof {
                    encoding::lemma_host_span_valid_utf8(stdout@);
                }
                let host = vstd::slice::slice_to_vec(&stdout.as_slice()[a..b]);
                match encoding::string_from_utf8(host) {
                    Some(h) => Ok(h),
                    None => vstd::pervasive::unreached(),
                }
            },
        },
    }
}

} // verus!
