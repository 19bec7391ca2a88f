//! The generated file: what it holds, and whether it has to be written.
//!
//! The file holds one line, the declaration of the string `VERSION`. It is
//! written only where it does not yet hold exactly that line, so that a build
//! which changes nothing leaves the file, and its time stamp, alone.

use crate::error::StampError;
use crate::manifest::{
    declared_version, lemma_no_declaration, lines_of, version_key, version_number,
};
use crate::revision::{descriptor_of, git_describe, ToolOutput};
use vstd::prelude::*;
use vstd::utf8::{encode_utf8, encode_utf8_decode_utf8};

verus! {

/// The line that the file holds where there is no descriptor.
pub open spec fn fallback_content() -> Seq<char> {
    "pub(crate) static VERSION: &str = \"no version could be found\";\n"@
}

/// The line that declares `VERSION` as `version`, a comma, a space and
/// `descriptor`.
pub open spec fn declaration(version: Seq<char>, descriptor: Seq<char>) -> Seq<char> {
    "pub(crate) static VERSION: &str = \""@ + version + ", "@ + descriptor + "\";\n"@
}

/// What the file is to hold for a package of version `version`.
///
/// Without a descriptor the line names no version at all, whatever
/// `version` is.
pub open spec fn content_of(version: Seq<char>, descriptor: Option<Seq<char>>) -> Seq<char> {
    match descriptor {
        Some(d) => declaration(version, d),
        None => fallback_content(),
    }
}

/// The view of a text that may be absent.
pub open spec fn text_view(text: Option<&str>) -> Option<Seq<char>> {
    match text {
        Some(t) => Some(t@),
        None => None,
    }
}

/// What the file is to hold for a package of version `version_number`.
pub fn content(version_number: &str, descriptor: Option<&str>) -> (line: String)
    ensures
        line@ == content_of(version_number@, text_view(descriptor)),
{
    match descriptor {
        Some(d) => {
            let mut line = String::from_str("pub(crate) static VERSION: &str = \"");
            line.append(version_number);
            line.append(", ");
            line.append(d);
            line.append("\";\n");
            line
        },
        None => String::from_str(
            "pub(crate) static VERSION: &str = \"no version could be found\";\n",
        ),
    }
}

/// Whether the file, which holds `current`, already holds `content`.
pub fn same_content_as(current: &str, content: &str) -> (same: bool)
    ensures
        same == (current@ == content@),
{
    let a = current.as_bytes();
    let b = content.as_bytes();
    proof {
        // Two texts with the same bytes are the same text.
        encode_utf8_decode_utf8(current@);
        encode_utf8_decode_utf8(content@);
    }
    if a.len() != b.len() {
        return false;
    }
    let mut i: usize = 0;
    while i < a.len()
        invariant
            i <= a.len() == b.len(),
            a@ == encode_utf8(current@),
            b@ == encode_utf8(content@),
            forall|j: int| 0 <= j < i ==> a@[j] == b@[j],
        decreases a.len() - i,
    {
        if a[i] != b[i] {
            return false;
        }
        i += 1;
    }
    assert(a@ =~= b@);
    true
}

/// What a run asks of the caller.
#[derive(Debug, PartialEq, Eq)]
pub enum Action {
    /// The file holds what it should: leave it untouched.
    Keep,
    /// Replace the whole file by this text, creating it if need be.
    Write(String),
}

impl Action {
    /// The text that the file is replaced by, if it is replaced.
    pub open spec fn written(self) -> Option<Seq<char>> {
        match self {
            Action::Keep => None,
            Action::Write(text) => Some(text@),
        }
    }
}

/// What has to be written to a file that holds `existing` (`None`: there is
/// no file) so that it holds `content`: `None` where it does already.
pub open spec fn write_needed(content: Seq<char>, existing: Option<Seq<char>>) -> Option<
    Seq<char>,
> {
    if existing == Some(content) {
        None
    } else {
        Some(content)
    }
}

/// What a run does, given the manifest's text, the descriptor and what the
/// file holds: the text it writes, `None` where it writes nothing, or why it
/// fails. A run that fails writes nothing.
pub open spec fn stamp_of(
    manifest: Seq<char>,
    descriptor: Option<Seq<char>>,
    existing: Option<Seq<char>>,
) -> Result<Option<Seq<char>>, StampError> {
    match declared_version(manifest) {
        Some(v) => Ok(write_needed(content_of(v, descriptor), existing)),
        None => Err(StampError::NoVersion),
    }
}

/// What the file holds after a run of the outcome `outcome`, where it held
/// `existing` before.
pub open spec fn file_after(
    existing: Option<Seq<char>>,
    outcome: Result<Option<Seq<char>>, StampError>,
) -> Option<Seq<char>> {
    match outcome {
        Ok(Some(text)) => Some(text),
        _ => existing,
    }
}

/// Whether a file that holds `existing` (`None`: there is no file) has to be
/// written to hold `content`, and with what.
pub fn action_for(content: String, existing: Option<&str>) -> (action: Action)
    ensures
        action.written() == write_needed(content@, text_view(existing)),
{
    let fresh = match existing {
        Some(current) => same_content_as(current, content.as_str()),
        None => false,
    };
    if fresh {
        Action::Keep
    } else {
        Action::Write(content)
    }
}

/// One run of the stamping: from the manifest's text, what came of running
/// the version-control tool, and what the generated file holds (`None`: there
/// is no such file yet), what is to be done to the file.
///
/// Fails exactly when the manifest declares no version; nothing is written
/// then. Otherwise the file is to hold `content_of` the declared version and
/// the descriptor, and is written only where it does not.
pub fn version(manifest: &str, run: Option<&ToolOutput>, existing: Option<&str>) -> (r: Result<
    Action,
    StampError,
>)
    ensures
        match r {
            Ok(action) => stamp_of(manifest@, descriptor_of(run), text_view(existing)) == Ok::<
                Option<Seq<char>>,
                StampError,
            >(action.written()),
            Err(e) => stamp_of(manifest@, descriptor_of(run), text_view(existing)) == Err::<
                Option<Seq<char>>,
                StampError,
            >(e),
        },
{
    let version_number = match version_number(manifest) {
        Ok(v) => v,
        Err(e) => {
            return Err(e);
        },
    };
    let descriptor = git_describe(run);
    let line = match &descriptor {
        Some(d) => content(version_number.as_str(), Some(d.as_str())),
        None => content(version_number.as_str(), None),
    };
    Ok(action_for(line, existing))
}

/// The content tells descriptors apart: for one version, two descriptors
/// give the same line only where they are the same descriptor. In particular
/// no version and no descriptor make the line that stands for a missing
/// descriptor.
pub proof fn lemma_content_tells_descriptors_apart(
    version: Seq<char>,
    d1: Option<Seq<char>>,
    d2: Option<Seq<char>>,
)
    ensures
        content_of(version, d1) == content_of(version, d2) <==> d1 == d2,
{
    reveal_strlit("pub(crate) static VERSION: &str = \"no version could be found\";\n");
    reveal_strlit("pub(crate) static VERSION: &str = \"");
    reveal_strlit(", ");
    reveal_strlit("\";\n");
    let head = "pub(crate) static VERSION: &str = \""@;
    let front = head + version + ", "@;
    let tail = "\";\n"@;
    let comma = head.len() + version.len();
    match (d1, d2) {
        (Some(a), Some(b)) => {
            if declaration(version, a) == declaration(version, b) {
                assert(declaration(version, a).len() == front.len() + a.len() + tail.len());
                assert(declaration(version, b).len() == front.len() + b.len() + tail.len());
                assert forall|i: int| 0 <= i < a.len() implies a[i] == b[i] by {
                    assert(declaration(version, a)[front.len() + i] == a[i]);
                    assert(declaration(version, b)[front.len() + i] == b[i]);
                }
                assert(a =~= b);
            }
        },
        (Some(a), None) => {
            if declaration(version, a) == fallback_content() {
                assert(declaration(version, a)[comma as int] == ',');
                lemma_fallback_has_no_comma(comma as int);
            }
        },
        (None, Some(b)) => {
            if declaration(version, b) == fallback_content() {
                assert(declaration(version, b)[comma as int] == ',');
                lemma_fallback_has_no_comma(comma as int);
            }
        },
        (None, None) => {},
    }
}

/// The line that stands for a missing descriptor holds no comma.
proof fn lemma_fallback_has_no_comma(i: int)
    requires
        0 <= i < fallback_content().len(),
    ensures
        fallback_content()[i] != ',',
{
    reveal_strlit("pub(crate) static VERSION: &str = \"no version could be found\";\n");
}

/// A second run, with the manifest, the descriptor and the file as the first
/// run left them, writes nothing: the file keeps its content and its time
/// stamp.
pub proof fn lemma_second_run_writes_nothing(
    manifest: Seq<char>,
    descriptor: Option<Seq<char>>,
    existing: Option<Seq<char>>,
)
    ensures
        ({
            let first = stamp_of(manifest, descriptor, existing);
            let second = stamp_of(manifest, descriptor, file_after(existing, first));
            &&& first is Ok ==> second == Ok::<Option<Seq<char>>, StampError>(None)
            &&& first is Err ==> second == first
            &&& file_after(file_after(existing, first), second) == file_after(existing, first)
        }),
{
}

/// A run after the descriptor has changed writes the file anew, with the
/// content that belongs to the new descriptor, whatever the file held before
/// the earlier run.
pub proof fn lemma_changed_descriptor_rewrites(
    manifest: Seq<char>,
    earlier: Option<Seq<char>>,
    later: Option<Seq<char>>,
    existing: Option<Seq<char>>,
)
    requires
        earlier != later,
    ensures
        ({
            let first = stamp_of(manifest, earlier, existing);
            let second = stamp_of(manifest, later, file_after(existing, first));
            declared_version(manifest) matches Some(v) ==> second == Ok::<
                Option<Seq<char>>,
                StampError,
            >(Some(content_of(v, later)))
        }),
{
    match declared_version(manifest) {
        Some(v) => lemma_content_tells_descriptors_apart(v, earlier, later),
        None => {},
    }
}

/// A manifest none of whose lines declares a version makes the run fail,
/// whatever the descriptor, and the file stays as it was: where there was
/// none, none is made.
pub proof fn lemma_no_version_no_file(
    manifest: Seq<char>,
    descriptor: Option<Seq<char>>,
    existing: Option<Seq<char>>,
)
    requires
        forall|i: int|
            0 <= i < lines_of(manifest).len() ==> !version_key().is_prefix_of(
                #[trigger] lines_of(manifest)[i],
            ),
    ensures
        stamp_of(manifest, descriptor, existing) == Err::<Option<Seq<char>>, StampError>(
            StampError::NoVersion,
        ),
        file_after(existing, stamp_of(manifest, descriptor, existing)) == existing,
{
    lemma_no_declaration(manifest);
}

} // verus!
