//! The version that a package manifest declares.
//!
//! The manifest is read as plain text, line by line. A line declares a
//! version when it begins with `version = "`; what it declares is the rest of
//! the line with every `"` taken out. A manifest may hold several such lines,
//! one for each of its sections: the last one counts.

use crate::error::StampError;
use crate::text::{chars_of, starts_with, string_of, without, without_char};
use vstd::prelude::*;
use vstd::slice::slice_subrange;

verus! {

/// What a line that declares a version begins with.
pub open spec fn version_key() -> Seq<char> {
    "version = \""@
}

/// The version that `line` declares, where it declares one: what follows the
/// key, with every `"` taken out.
pub open spec fn version_in_line(line: Seq<char>) -> Option<Seq<char>> {
    if version_key().is_prefix_of(line) {
        Some(without(line.skip(version_key().len() as int), '"'))
    } else {
        None
    }
}

/// The version that the last declaring line among `lines` declares.
pub open spec fn last_declared(lines: Seq<Seq<char>>) -> Option<Seq<char>>
    decreases lines.len(),
{
    if lines.len() == 0 {
        None
    } else if version_in_line(lines.last()) is Some {
        version_in_line(lines.last())
    } else {
        last_declared(lines.drop_last())
    }
}

/// The version that the manifest `text` declares, if it declares any.
pub open spec fn declared_version(text: Seq<char>) -> Option<Seq<char>> {
    last_declared(lines_of(text))
}

/// How many characters of `s` come before its first line feed: the length of
/// `s` where it holds none.
pub open spec fn first_newline(s: Seq<char>) -> int
    decreases s.len(),
{
    if s.len() == 0 || s.first() == '\n' {
        0
    } else {
        1 + first_newline(s.drop_first())
    }
}

/// A line as it stood before its line feed, without the carriage return that
/// a line ending of two characters leaves behind.
pub open spec fn strip_cr(line: Seq<char>) -> Seq<char> {
    if line.len() > 0 && line.last() == '\r' {
        line.drop_last()
    } else {
        line
    }
}

/// The lines of `s`.
///
/// A line ends at a line feed, or at a carriage return directly followed by
/// one; neither belongs to the line. The end of the text ends the last line,
/// so that a text which ends in a line ending has the same lines as the text
/// without it, and the empty text has no line. A carriage return anywhere but
/// before a line feed is a character like any other.
pub open spec fn lines_of(s: Seq<char>) -> Seq<Seq<char>>
    decreases s.len(),
{
    let k = first_newline(s);
    if s.len() == 0 {
        Seq::empty()
    } else if 0 <= k < s.len() {
        seq![strip_cr(s.take(k))] + lines_of(s.skip(k + 1))
    } else {
        seq![s]
    }
}

/// `first_newline` is the place of the first line feed: nothing before it is
/// one, and it is one itself unless the text ends there.
pub proof fn lemma_first_newline(s: Seq<char>)
    ensures
        0 <= first_newline(s) <= s.len(),
        forall|i: int| 0 <= i < first_newline(s) ==> s[i] != '\n',
        first_newline(s) < s.len() ==> s[first_newline(s)] == '\n',
    decreases s.len(),
{
    if s.len() != 0 && s.first() != '\n' {
        let rest = s.drop_first();
        lemma_first_newline(rest);
        assert forall|i: int| 0 <= i < first_newline(s) implies s[i] != '\n' by {
            if i > 0 {
                assert(s[i] == rest[i - 1]);
            }
        }
        assert(first_newline(s) < s.len() ==> s[first_newline(s)] == rest[first_newline(rest)]);
    }
}

/// Whatever place has no line feed before it, and holds one or ends the text,
/// is `first_newline`.
pub proof fn lemma_first_newline_is(s: Seq<char>, k: int)
    requires
        0 <= k <= s.len(),
        forall|i: int| 0 <= i < k ==> s[i] != '\n',
        k < s.len() ==> s[k] == '\n',
    ensures
        first_newline(s) == k,
{
    lemma_first_newline(s);
}

/// The parts of `s` that `spans` marks out, each from its first number up to
/// but without its second.
pub open spec fn spans_text(s: Seq<char>, spans: Seq<(usize, usize)>) -> Seq<Seq<char>> {
    Seq::new(spans.len(), |i: int| s.subrange(spans[i].0 as int, spans[i].1 as int))
}

/// Whether each of `spans` lies within a text of `len` characters.
pub open spec fn spans_within(spans: Seq<(usize, usize)>, len: nat) -> bool {
    forall|i: int| 0 <= i < spans.len() ==> (#[trigger] spans[i]).0 <= spans[i].1 <= len
}

/// The place of the first line feed of `cs` at or after `pos`: the length of
/// `cs` where none follows.
pub fn line_end(cs: &[char], pos: usize) -> (k: usize)
    requires
        pos <= cs.len(),
    ensures
        pos <= k <= cs.len(),
        k - pos == first_newline(cs@.skip(pos as int)),
{
    let mut k: usize = pos;
    while k < cs.len() && cs[k] != '\n'
        invariant
            pos <= k <= cs.len(),
            forall|i: int| pos <= i < k ==> cs@[i] != '\n',
        decreases cs.len() - k,
    {
        k += 1;
    }
    proof {
        lemma_first_newline_is(cs@.skip(pos as int), k - pos);
    }
    k
}

/// Where the lines of `cs` lie in it, in order.
pub fn line_spans(cs: &[char]) -> (spans: Vec<(usize, usize)>)
    ensures
        spans_within(spans@, cs@.len()),
        spans_text(cs@, spans@) == lines_of(cs@),
{
    let mut spans: Vec<(usize, usize)> = Vec::new();
    let mut pos: usize = 0;
    assert(cs@.skip(0) == cs@);
    while pos < cs.len()
        invariant
            pos <= cs.len(),
            spans_within(spans@, cs@.len()),
            lines_of(cs@) == spans_text(cs@, spans@) + lines_of(cs@.skip(pos as int)),
        decreases cs.len() - pos,
    {
        let ghost rest = cs@.skip(pos as int);
        let ghost before = spans@;
        let k = line_end(cs, pos);
        let stop: usize = if k < cs.len() && k > pos && cs[k - 1] == '\r' {
            k - 1
        } else {
            k
        };
        let next: usize = if k < cs.len() {
            k + 1
        } else {
            k
        };
        spans.push((pos, stop));
        proof {
            let line = cs@.subrange(pos as int, stop as int);
            if k < cs.len() {
                assert(rest.take(k - pos) == cs@.subrange(pos as int, k as int));
                assert(strip_cr(rest.take(k - pos)) == line) by {
                    if k > pos && cs@[k - 1] == '\r' {
                        assert(cs@.subrange(pos as int, k as int).drop_last() == line);
                    }
                }
                assert(rest.skip(k - pos + 1) == cs@.skip(next as int));
            } else {
                assert(rest == line);
                assert(lines_of(cs@.skip(next as int)) == Seq::<Seq<char>>::empty());
            }
            assert(lines_of(rest) == seq![line] + lines_of(cs@.skip(next as int)));
            assert(spans_text(cs@, spans@) == spans_text(cs@, before) + seq![line]);
            assert(spans_text(cs@, before) + (seq![line] + lines_of(cs@.skip(next as int)))
                == spans_text(cs@, before) + seq![line] + lines_of(cs@.skip(next as int)));
        }
        pos = next;
    }
    assert(spans_text(cs@, spans@) + Seq::<Seq<char>>::empty() == spans_text(cs@, spans@));
    spans
}

/// A declaring line with no declaring line after it decides: whatever stands
/// before it, and however many lines declare a version there, its version is
/// the one that `lines` declare.
pub proof fn lemma_last_declaring_line(lines: Seq<Seq<char>>, i: int)
    requires
        0 <= i < lines.len(),
        version_in_line(lines[i]) is Some,
        forall|j: int| i < j < lines.len() ==> version_in_line(#[trigger] lines[j]) is None,
    ensures
        last_declared(lines) == version_in_line(lines[i]),
    decreases lines.len(),
{
    if i < lines.len() - 1 {
        assert(version_in_line(lines[lines.len() - 1]) is None);
        let front = lines.drop_last();
        assert(front[i] == lines[i]);
        assert forall|j: int| i < j < front.len() implies version_in_line(
            #[trigger] front[j],
        ) is None by {
            assert(front[j] == lines[j]);
        }
        lemma_last_declaring_line(front, i);
    }
}

/// Of several declarations the last one wins: where line `i` of a manifest
/// declares a version and no later line does, the manifest declares the
/// version of line `i`, whatever the lines before it declare.
pub proof fn lemma_last_declaration_wins(text: Seq<char>, i: int)
    requires
        0 <= i < lines_of(text).len(),
        version_in_line(lines_of(text)[i]) is Some,
        forall|j: int|
            i < j < lines_of(text).len() ==> version_in_line(#[trigger] lines_of(text)[j]) is None,
    ensures
        declared_version(text) == version_in_line(lines_of(text)[i]),
{
    lemma_last_declaring_line(lines_of(text), i);
}

/// A manifest declares no version exactly when none of its lines begins with
/// the key.
pub proof fn lemma_no_declaration(text: Seq<char>)
    ensures
        declared_version(text) is None <==> forall|i: int|
            0 <= i < lines_of(text).len() ==> !version_key().is_prefix_of(
                #[trigger] lines_of(text)[i],
            ),
{
    let lines = lines_of(text);
    lemma_none_declared(lines);
    if declared_version(text) is None {
        assert forall|i: int| 0 <= i < lines.len() implies !version_key().is_prefix_of(
            #[trigger] lines[i],
        ) by {
            assert(version_in_line(lines[i]) is None);
        }
    } else {
        let i = choose|i: int|
            0 <= i < lines.len() && !(version_in_line(#[trigger] lines[i]) is None);
        assert(version_key().is_prefix_of(lines[i]));
    }
}

/// Lines declare no version exactly when none of them declares one.
pub proof fn lemma_none_declared(lines: Seq<Seq<char>>)
    ensures
        last_declared(lines) is None <==> forall|i: int|
            0 <= i < lines.len() ==> version_in_line(#[trigger] lines[i]) is None,
    decreases lines.len(),
{
    if lines.len() > 0 {
        let front = lines.drop_last();
        lemma_none_declared(front);
        if version_in_line(lines.last()) is None {
            if last_declared(front) is None {
                assert forall|i: int| 0 <= i < lines.len() implies version_in_line(
                    #[trigger] lines[i],
                ) is None by {
                    if i < front.len() {
                        assert(front[i] == lines[i]);
                    }
                }
            } else {
                let i = choose|i: int|
                    0 <= i < front.len() && !(version_in_line(#[trigger] front[i]) is None);
                assert(front[i] == lines[i]);
            }
        } else {
            assert(lines[lines.len() - 1] == lines.last());
        }
    }
}

/// The version that the manifest `manifest` declares.
///
/// Fails with `StampError::NoVersion` exactly when no line of the manifest
/// declares one.
pub fn version_number(manifest: &str) -> (r: Result<String, StampError>)
    ensures
        match r {
            Ok(v) => declared_version(manifest@) == Some(v@),
            Err(e) => e == StampError::NoVersion && declared_version(manifest@) is None,
        },
{
    let cs = chars_of(manifest);
    let key = chars_of("version = \"");
    let spans = line_spans(cs.as_slice());
    let ghost lines = lines_of(cs@);
    let mut i: usize = spans.len();
    assert(lines.take(i as int) == lines);
    while i > 0
        invariant
            i <= spans.len(),
            cs@ == manifest@,
            lines == lines_of(cs@),
            spans_within(spans@, cs@.len()),
            spans_text(cs@, spans@) == lines,
            key@ == version_key(),
            last_declared(lines) == last_declared(lines.take(i as int)),
        decreases i,
    {
        i -= 1;
        let (start, stop) = spans[i];
        let line = slice_subrange(cs.as_slice(), start, stop);
        assert(line@ == lines[i as int]);
        assert(lines.take(i as int + 1).last() == lines[i as int]);
        assert(lines.take(i as int + 1).drop_last() == lines.take(i as int));
        if starts_with(line, key.as_slice()) {
            let value = without_char(slice_subrange(line, key.len(), line.len()), '"');
            assert(line@.subrange(key@.len() as int, line@.len() as int) == line@.skip(
                key@.len() as int,
            ));
            return Ok(string_of(value.as_slice()));
        }
    }
    Err(StampError::NoVersion)
}

} // verus!
