//! Text as a sequence of characters.
//!
//! The rest of the crate reasons about text position by position. A `&str`
//! gives no cheap access by position, so text is moved into a `Vec<char>`
//! once, worked on there, and moved back into a `String` at the end.

use vstd::prelude::*;
use vstd::slice::slice_subrange;

verus! {

/// Appends one character to a string: `String::push` of the standard library.
///
/// Believed, not proved: afterwards the string holds the characters it held
/// before, followed by `c`.
#[verifier::external_body]
fn push_char(s: &mut String, c: char)
    ensures
        final(s)@ == old(s)@.push(c),
{
    s.push(c)
}

/// The characters of `s`, in order.
pub fn chars_of(s: &str) -> (cs: Vec<char>)
    ensures
        cs@ == s@,
{
    let mut cs: Vec<char> = Vec::new();
    for c in it: s.chars()
        invariant
            it.seq() == s@,
            cs@ == it.seq().take(it.index()),
    {
        cs.push(c);
    }
    cs
}

/// The string made of the characters `cs`, in order.
pub fn string_of(cs: &[char]) -> (s: String)
    ensures
        s@ == cs@,
{
    let mut s = String::new();
    let mut i: usize = 0;
    while i < cs.len()
        invariant
            i <= cs.len(),
            s@ == cs@.take(i as int),
        decreases cs.len() - i,
    {
        push_char(&mut s, cs[i]);
        i += 1;
    }
    s
}

/// Whether `c` is white space: one of the code points that Unicode gives
/// the property `White_Space`.
pub open spec fn is_white_space(c: char) -> bool {
    let n = c as u32;
    ||| 0x0009 <= n <= 0x000D
    ||| n == 0x0020
    ||| n == 0x0085
    ||| n == 0x00A0
    ||| n == 0x1680
    ||| 0x2000 <= n <= 0x200A
    ||| n == 0x2028
    ||| n == 0x2029
    ||| n == 0x202F
    ||| n == 0x205F
    ||| n == 0x3000
}

/// `s` without the white space it starts with.
pub open spec fn trim_start(s: Seq<char>) -> Seq<char>
    decreases s.len(),
{
    if s.len() > 0 && is_white_space(s.first()) {
        trim_start(s.drop_first())
    } else {
        s
    }
}

/// `s` without the white space it ends with.
pub open spec fn trim_end(s: Seq<char>) -> Seq<char>
    decreases s.len(),
{
    if s.len() > 0 && is_white_space(s.last()) {
        trim_end(s.drop_last())
    } else {
        s
    }
}

/// `s` without the white space at either end.
pub open spec fn trimmed(s: Seq<char>) -> Seq<char> {
    trim_end(trim_start(s))
}

/// Whether `c` is white space.
pub fn is_whitespace(c: char) -> (b: bool)
    ensures
        b == is_white_space(c),
{
    let n: u32 = c as u32;
    (0x0009 <= n && n <= 0x000D) || n == 0x0020 || n == 0x0085 || n == 0x00A0 || n == 0x1680 || (
    0x2000 <= n && n <= 0x200A) || n == 0x2028 || n == 0x2029 || n == 0x202F || n == 0x205F || n
        == 0x3000
}

/// Where `trimmed(cs@)` lies in `cs`: it is `cs[start..end]`.
pub fn trim_bounds(cs: &[char]) -> (bounds: (usize, usize))
    ensures
        bounds.0 <= bounds.1 <= cs.len(),
        cs@.subrange(bounds.0 as int, bounds.1 as int) == trimmed(cs@),
{
    let mut start: usize = 0;
    assert(cs@.skip(0) == cs@);
    while start < cs.len() && is_whitespace(cs[start])
        invariant
            start <= cs.len(),
            trim_start(cs@) == trim_start(cs@.skip(start as int)),
        decreases cs.len() - start,
    {
        assert(cs@.skip(start as int).drop_first() == cs@.skip(start as int + 1));
        start += 1;
    }
    assert(trim_start(cs@) == cs@.skip(start as int));
    let ghost rest = cs@.skip(start as int);
    let mut end: usize = cs.len();
    assert(rest.take(end - start) == rest);
    while end > start && is_whitespace(cs[end - 1])
        invariant
            start <= end <= cs.len(),
            rest == cs@.skip(start as int),
            trim_end(rest) == trim_end(rest.take(end - start)),
        decreases end,
    {
        assert(rest.take(end - start).drop_last() == rest.take(end - start - 1));
        end -= 1;
    }
    assert(rest.take(end - start) == cs@.subrange(start as int, end as int));
    (start, end)
}

/// The text `s` without the white space at either end.
pub fn trim(s: &str) -> (t: String)
    ensures
        t@ == trimmed(s@),
{
    let cs = chars_of(s);
    let (start, end) = trim_bounds(cs.as_slice());
    string_of(slice_subrange(cs.as_slice(), start, end))
}

/// `s` without any occurrence of `unwanted`.
pub open spec fn without(s: Seq<char>, unwanted: char) -> Seq<char>
    decreases s.len(),
{
    if s.len() == 0 {
        s
    } else if s.last() == unwanted {
        without(s.drop_last(), unwanted)
    } else {
        without(s.drop_last(), unwanted).push(s.last())
    }
}

/// Whether `cs` begins with `key`.
pub fn starts_with(cs: &[char], key: &[char]) -> (b: bool)
    ensures
        b == key@.is_prefix_of(cs@),
{
    if key.len() > cs.len() {
        return false;
    }
    let mut i: usize = 0;
    while i < key.len()
        invariant
            i <= key.len() <= cs.len(),
            forall|j: int| 0 <= j < i ==> key@[j] == cs@[j],
        decreases key.len() - i,
    {
        if key[i] != cs[i] {
            assert(cs@.subrange(0, key@.len() as int)[i as int] == cs@[i as int]);
            return false;
        }
        i += 1;
    }
    assert(key@ =~= cs@.subrange(0, key@.len() as int));
    true
}

/// The characters of `cs` other than `unwanted`, in order.
pub fn without_char(cs: &[char], unwanted: char) -> (kept: Vec<char>)
    ensures
        kept@ == without(cs@, unwanted),
{
    let mut kept: Vec<char> = Vec::new();
    let mut i: usize = 0;
    assert(cs@.take(0) == Seq::<char>::empty());
    while i < cs.len()
        invariant
            i <= cs.len(),
            kept@ == without(cs@.take(i as int), unwanted),
        decreases cs.len() - i,
    {
        assert(cs@.take(i as int + 1).drop_last() == cs@.take(i as int));
        if cs[i] != unwanted {
            kept.push(cs[i]);
        }
        i += 1;
    }
    assert(cs@.take(cs@.len() as int) == cs@);
    kept
}

/// Where `trim_start(s)` begins in `s`: everything before that place is
/// white space, and what stands there is not.
pub proof fn lemma_trim_start(s: Seq<char>) -> (start: int)
    ensures
        0 <= start <= s.len(),
        trim_start(s) == s.skip(start),
        forall|i: int| 0 <= i < start ==> is_white_space(s[i]),
        start < s.len() ==> !is_white_space(s[start]),
    decreases s.len(),
{
    if s.len() > 0 && is_white_space(s.first()) {
        let rest = s.drop_first();
        let inner = lemma_trim_start(rest);
        assert(rest.skip(inner) == s.skip(inner + 1));
        assert forall|i: int| 0 <= i < inner + 1 implies is_white_space(s[i]) by {
            if i > 0 {
                assert(s[i] == rest[i - 1]);
            }
        }
        assert(inner + 1 < s.len() ==> s[inner + 1] == rest[inner]);
        inner + 1
    } else {
        assert(s.skip(0) == s);
        0
    }
}

/// Where `trim_end(s)` ends in `s`: everything from that place on is white
/// space, and what stands just before it is not.
pub proof fn lemma_trim_end(s: Seq<char>) -> (end: int)
    ensures
        0 <= end <= s.len(),
        trim_end(s) == s.take(end),
        forall|i: int| end <= i < s.len() ==> is_white_space(s[i]),
        end > 0 ==> !is_white_space(s[end - 1]),
    decreases s.len(),
{
    if s.len() > 0 && is_white_space(s.last()) {
        let front = s.drop_last();
        let inner = lemma_trim_end(front);
        assert(front.take(inner) == s.take(inner));
        assert forall|i: int| inner <= i < s.len() implies is_white_space(s[i]) by {
            if i < front.len() {
                assert(s[i] == front[i]);
            }
        }
        assert(inner > 0 ==> s[inner - 1] == front[inner - 1]);
        inner
    } else {
        assert(s.take(s.len() as int) == s);
        s.len() as int
    }
}

/// What trimming leaves: the part of `s` from its first character that is no
/// white space up to its last one. All that goes is white space, and what
/// stays neither begins nor ends with any.
pub proof fn lemma_trimmed(s: Seq<char>) -> (bounds: (int, int))
    ensures
        0 <= bounds.0 <= bounds.1 <= s.len(),
        trimmed(s) == s.subrange(bounds.0, bounds.1),
        forall|i: int| 0 <= i < bounds.0 ==> is_white_space(s[i]),
        forall|i: int| bounds.1 <= i < s.len() ==> is_white_space(s[i]),
        bounds.0 < bounds.1 ==> !is_white_space(s[bounds.0]) && !is_white_space(s[bounds.1 - 1]),
{
    let start = lemma_trim_start(s);
    let rest = s.skip(start);
    let len = lemma_trim_end(rest);
    assert(rest.take(len) == s.subrange(start, start + len));
    assert forall|i: int| start + len <= i < s.len() implies is_white_space(s[i]) by {
        assert(s[i] == rest[i - start]);
    }
    if len > 0 {
        assert(rest[len - 1] == s[start + len - 1]);
    }
    (start, start + len)
}

/// Text that neither begins nor ends with white space is left as it is: to
/// trim a second time changes nothing.
pub proof fn lemma_trimmed_twice(s: Seq<char>)
    ensures
        trimmed(trimmed(s)) == trimmed(s),
{
    let (start, end) = lemma_trimmed(s);
    let t = trimmed(s);
    if start < end {
        assert(t.first() == s[start]);
        assert(t.last() == s[end - 1]);
    }
}

} // verus!
