//! Why stamping can fail.

use vstd::prelude::*;

verus! {

/// The one failure that the text of a manifest can cause. Failures of the
/// file system belong to whoever reads and writes the files.
#[derive(Debug, Clone, Copy, PartialEq, Eq, Structural)]
pub enum StampError {
    /// No line of the manifest declares a version.
    NoVersion,
}

impl StampError {
    /// What went wrong, in words.
    pub open spec fn message_text(self) -> Seq<char> {
        "no version found in Cargo.toml"@
    }

    /// What went wrong, in words, for a caller that reports it.
    pub fn message(&self) -> (m: String)
        ensures
            m@ == self.message_text(),
    {
        String::from_str("no version found in Cargo.toml")
    }
}

} // verus!
