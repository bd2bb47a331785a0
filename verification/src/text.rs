//! Character classes and text conversions shared by the other modules.

use vstd::prelude::*;

verus! {

/// Unicode `White_Space`: the characters that count as blank both for trimming
/// and for the gaps inside an import statement.
pub open spec fn is_space(c: char) -> bool {
    ||| ('\u{9}' <= c && c <= '\u{d}')
    ||| c == ' '
    ||| c == '\u{85}'
    ||| c == '\u{a0}'
    ||| c == '\u{1680}'
    ||| ('\u{2000}' <= c && c <= '\u{200a}')
    ||| c == '\u{2028}'
    ||| c == '\u{2029}'
    ||| c == '\u{202f}'
    ||| c == '\u{205f}'
    ||| c == '\u{3000}'
}

/// A character that may open an identifier: an ASCII letter or `_`.
pub open spec fn is_ident_start(c: char) -> bool {
    ||| ('a' <= c && c <= 'z')
    ||| ('A' <= c && c <= 'Z')
    ||| c == '_'
}

/// A character that may continue an identifier: an ASCII letter, digit or `_`.
pub open spec fn is_ident_char(c: char) -> bool {
    ||| is_ident_start(c)
    ||| ('0' <= c && c <= '9')
}

/// The first index at or after `i` that does not hold a blank.
pub open spec fn space_run_end(s: Seq<char>, i: int) -> int
    decreases s.len() - i,
{
    if 0 <= i < s.len() && is_space(s[i]) {
        space_run_end(s, i + 1)
    } else {
        i
    }
}

/// The first index at or after `i` that does not hold an identifier character.
pub open spec fn ident_run_end(s: Seq<char>, i: int) -> int
    decreases s.len() - i,
{
    if 0 <= i < s.len() && is_ident_char(s[i]) {
        ident_run_end(s, i + 1)
    } else {
        i
    }
}

/// The first index at or before `i` behind which only blanks lie up to `i`.
pub open spec fn space_run_start(s: Seq<char>, i: int) -> int
    decreases i,
{
    if 0 < i <= s.len() && is_space(s[i - 1]) {
        space_run_start(s, i - 1)
    } else {
        i
    }
}

/// `s` without the blanks at its two ends.
pub open spec fn trimmed(s: Seq<char>) -> Seq<char> {
    let from = space_run_end(s, 0);
    let to = space_run_start(s, s.len() as int);
    if from < to {
        s.subrange(from, to)
    } else {
        Seq::empty()
    }
}

/// `s` begins with `p`.
pub open spec fn has_prefix(s: Seq<char>, p: Seq<char>) -> bool {
    p.len() <= s.len() && s.subrange(0, p.len() as int) == p
}

/// Whether `c` is a blank.
pub fn char_is_space(c: char) -> (b: bool)
    ensures
        b == is_space(c),
{
    ('\u{9}' <= c && c <= '\u{d}') || c == ' ' || c == '\u{85}' || c == '\u{a0}' || c
        == '\u{1680}' || ('\u{2000}' <= c && c <= '\u{200a}') || c == '\u{2028}' || c
        == '\u{2029}' || c == '\u{202f}' || c == '\u{205f}' || c == '\u{3000}'
}

/// Whether `c` may open an identifier.
pub fn char_is_ident_start(c: char) -> (b: bool)
    ensures
        b == is_ident_start(c),
{
    ('a' <= c && c <= 'z') || ('A' <= c && c <= 'Z') || c == '_'
}

/// Whether `c` may continue an identifier.
pub fn char_is_ident_char(c: char) -> (b: bool)
    ensures
        b == is_ident_char(c),
{
    char_is_ident_start(c) || ('0' <= c && c <= '9')
}

/// The characters of `s`, in order.
pub fn to_chars(s: &str) -> (v: Vec<char>)
    ensures
        v@ == s@,
{
    let mut v: Vec<char> = Vec::new();
    for c in it: s.chars()
        invariant
            v@ == it.seq().take(it.index() as int),
            it.seq() == s@,
    {
        v.push(c);
    }
    v
}

/// `String::push` appends one character to the end of the string and leaves
/// the rest as it was.
pub assume_specification[ String::push ](s: &mut String, ch: char)
    ensures
        final(s)@ == old(s)@.push(ch),
;

/// The text that `bytes` hold as UTF-8, with U+FFFD in place of each
/// sequence that is no valid encoding.
pub uninterp spec fn lossy_text(bytes: Seq<u8>) -> Seq<char>;

/// `String::from_utf8_lossy`: the text of the bytes, which depends on the
/// bytes alone; bytes that are valid UTF-8 give the text that they encode.
#[verifier::external_body]
pub(crate) fn utf8_lossy(bytes: &[u8]) -> (text: String)
    ensures
        text@ == lossy_text(bytes@),
        vstd::utf8::valid_utf8(bytes@) ==> text@ == vstd::utf8::decode_utf8(bytes@),
{
    String::from_utf8_lossy(bytes).into_owned()
}

/// The string that holds the characters of `v`, in order.
pub fn from_chars(v: &Vec<char>) -> (s: String)
    ensures
        s@ == v@,
{
    let mut s = String::new();
    let mut i: usize = 0;
    while i < v.len()
        invariant
            i <= v.len(),
            s@ == v@.take(i as int),
        decreases v.len() - i,
    {
        s.push(v[i]);
        i += 1;
        assert(v@.take(i as int) == v@.take(i - 1).push(v@[i - 1]));
    }
    assert(v@.take(v.len() as int) == v@);
    s
}

/// Whether `pattern` stands in `text` at index `at`.
pub fn starts_with_at(text: &Vec<char>, at: usize, pattern: &Vec<char>) -> (found: bool)
    requires
        at <= text.len(),
    ensures
        found == has_prefix(text@.skip(at as int), pattern@),
{
    let ghost rest = text@.skip(at as int);
    if text.len() - at < pattern.len() {
        return false;
    }
    let mut k: usize = 0;
    while k < pattern.len()
        invariant
            k <= pattern.len(),
            at + pattern.len() <= text.len(),
            rest == text@.skip(at as int),
            forall|i: int| 0 <= i < k ==> text@[at + i] == pattern@[i],
        decreases pattern.len() - k,
    {
        if text[at + k] != pattern[k] {
            assert(rest.subrange(0, pattern.len() as int)[k as int] == text@[at + k]);
            return false;
        }
        k += 1;
    }
    assert(rest.subrange(0, pattern.len() as int) =~= pattern@);
    true
}

/// Whether `a` and `b` hold the same characters.
pub fn same_text(a: &str, b: &str) -> (same: bool)
    ensures
        same == (a@ == b@),
{
    let x = to_chars(a);
    let y = to_chars(b);
    if x.len() != y.len() {
        return false;
    }
    let mut k: usize = 0;
    while k < x.len()
        invariant
            k <= x.len(),
            x.len() == y.len(),
            x@ == a@,
            y@ == b@,
            forall|i: int| 0 <= i < k ==> x@[i] == y@[i],
        decreases x.len() - k,
    {
        if x[k] != y[k] {
            assert(x@[k as int] != y@[k as int]);
            return false;
        }
        k += 1;
    }
    assert(x@ =~= y@);
    true
}

/// `s` without the blanks at its two ends.
pub fn trim(s: &str) -> (out: String)
    ensures
        out@ == trimmed(s@),
{
    let text = to_chars(s);
    let mut from: usize = 0;
    while from < text.len() && char_is_space(text[from])
        invariant
            from <= text.len(),
            space_run_end(text@, from as int) == space_run_end(text@, 0),
        decreases text.len() - from,
    {
        from += 1;
    }
    let mut to: usize = text.len();
    while to > 0 && char_is_space(text[to - 1])
        invariant
            to <= text.len(),
            space_run_start(text@, to as int) == space_run_start(text@, text@.len() as int),
        decreases to,
    {
        to -= 1;
    }
    let mut kept: Vec<char> = Vec::new();
    let mut k: usize = from;
    while k < to
        invariant
            from <= k,
            k <= to || (from >= to && k == from),
            to <= text.len(),
            from < to ==> kept@ == text@.subrange(from as int, k as int),
            from >= to ==> kept@ == Seq::<char>::empty(),
        decreases to - k,
    {
        kept.push(text[k]);
        k += 1;
        assert(kept@ =~= text@.subrange(from as int, k as int));
    }
    assert(from < to ==> kept@ =~= text@.subrange(from as int, to as int));
    from_chars(&kept)
}

/// A run of blanks lies inside the text, holds blanks only, and stops before
/// a character that is none.
pub proof fn lemma_space_run_bounds(s: Seq<char>, i: int)
    requires
        0 <= i <= s.len(),
    ensures
        i <= space_run_end(s, i) <= s.len(),
        forall|k: int| i <= k < space_run_end(s, i) ==> is_space(#[trigger] s[k]),
        space_run_end(s, i) < s.len() ==> !is_space(s[space_run_end(s, i)]),
    decreases s.len() - i,
{
    if i < s.len() && is_space(s[i]) {
        lemma_space_run_bounds(s, i + 1);
    }
}

/// A run of identifier characters lies inside the text, holds such
/// characters only, and stops before a character that is none.
pub proof fn lemma_ident_run_bounds(s: Seq<char>, i: int)
    requires
        0 <= i <= s.len(),
    ensures
        i <= ident_run_end(s, i) <= s.len(),
        forall|k: int| i <= k < ident_run_end(s, i) ==> is_ident_char(#[trigger] s[k]),
        ident_run_end(s, i) < s.len() ==> !is_ident_char(s[ident_run_end(s, i)]),
    decreases s.len() - i,
{
    if i < s.len() && is_ident_char(s[i]) {
        lemma_ident_run_bounds(s, i + 1);
    }
}

/// A run of blanks is determined by where it stops.
pub proof fn lemma_space_run_is(s: Seq<char>, i: int, e: int)
    requires
        0 <= i <= e <= s.len(),
        forall|k: int| i <= k < e ==> is_space(#[trigger] s[k]),
        e < s.len() ==> !is_space(s[e]),
    ensures
        space_run_end(s, i) == e,
    decreases e - i,
{
    if i < e {
        lemma_space_run_is(s, i + 1, e);
    }
}

/// A run of identifier characters is determined by where it stops.
pub proof fn lemma_ident_run_is(s: Seq<char>, i: int, e: int)
    requires
        0 <= i <= e <= s.len(),
        forall|k: int| i <= k < e ==> is_ident_char(#[trigger] s[k]),
        e < s.len() ==> !is_ident_char(s[e]),
    ensures
        ident_run_end(s, i) == e,
    decreases e - i,
{
    if i < e {
        lemma_ident_run_is(s, i + 1, e);
    }
}

/// Runs of blanks move with the text when a prefix is cut off.
pub proof fn lemma_space_run_skip(s: Seq<char>, q: int, i: int)
    requires
        0 <= q <= s.len(),
        0 <= i <= s.len() - q,
    ensures
        space_run_end(s.skip(q), i) == space_run_end(s, q + i) - q,
{
    lemma_space_run_bounds(s, q + i);
    let e = space_run_end(s, q + i);
    let t = s.skip(q);
    assert forall|k: int| i <= k < e - q implies is_space(#[trigger] t[k]) by {
        assert(t[k] == s[q + k]);
    }
    if e - q < t.len() {
        assert(t[e - q] == s[e]);
    }
    lemma_space_run_is(t, i, e - q);
}

/// Runs of identifier characters move with the text when a prefix is cut off.
pub proof fn lemma_ident_run_skip(s: Seq<char>, q: int, i: int)
    requires
        0 <= q <= s.len(),
        0 <= i <= s.len() - q,
    ensures
        ident_run_end(s.skip(q), i) == ident_run_end(s, q + i) - q,
{
    lemma_ident_run_bounds(s, q + i);
    let e = ident_run_end(s, q + i);
    let t = s.skip(q);
    assert forall|k: int| i <= k < e - q implies is_ident_char(#[trigger] t[k]) by {
        assert(t[k] == s[q + k]);
    }
    if e - q < t.len() {
        assert(t[e - q] == s[e]);
    }
    lemma_ident_run_is(t, i, e - q);
}

} // verus!
