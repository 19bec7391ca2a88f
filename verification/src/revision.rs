//! What the version-control tool says about the working tree.
//!
//! The tool is asked to describe the current revision: the nearest tag where
//! there is one, else an abbreviated commit name. The caller runs it and hands
//! over what came of the run. Whatever goes wrong there is no failure of the
//! stamping: it only means that there is no descriptor.

use crate::text::{trim, trimmed};
use vstd::prelude::*;
use vstd::utf8::{decode_utf8, valid_utf8};

verus! {

/// What a finished run of the tool left behind.
pub struct ToolOutput {
    /// Whether the tool reported success when it exited.
    pub success: bool,
    /// What it wrote to its standard output.
    pub stdout: Vec<u8>,
}

/// Reads bytes as text: `std::str::from_utf8` of the standard library.
///
/// Believed, not proved: the bytes are accepted exactly when they are
/// well-formed UTF-8, and the text is then what they encode.
#[verifier::external_body]
fn text_of_bytes(bytes: &[u8]) -> (text: Option<&str>)
    ensures
        text is Some <==> valid_utf8(bytes@),
        text matches Some(t) ==> t@ == decode_utf8(bytes@),
{
    match std::str::from_utf8(bytes) {
        Ok(t) => Some(t),
        Err(_) => None,
    }
}

/// The descriptor that a run of the tool yields. `None` for `run` stands for
/// a tool that could not be started.
///
/// There is a descriptor exactly when the tool ran, reported success and
/// wrote well-formed UTF-8: it is that text without the white space around
/// it, and may be empty.
pub open spec fn descriptor_of(run: Option<&ToolOutput>) -> Option<Seq<char>> {
    match run {
        Some(out) => if out.success && valid_utf8(out.stdout@) {
            Some(trimmed(decode_utf8(out.stdout@)))
        } else {
            None
        },
        None => None,
    }
}

/// The descriptor of the current revision, from what came of running
/// `git describe --tags --always`.
pub fn git_describe(run: Option<&ToolOutput>) -> (descriptor: Option<String>)
    ensures
        match descriptor {
            Some(d) => descriptor_of(run) == Some(d@),
            None => descriptor_of(run) is None,
        },
{
    match run {
        Some(out) => {
            if !out.success {
                return None;
            }
            match text_of_bytes(out.stdout.as_slice()) {
                Some(text) => Some(trim(text)),
                None => None,
            }
        },
        None => None,
    }
}

} // verus!
