//! Small operations on texts that the other modules share.
use vstd::prelude::*;

verus! {

/// The characters of a text, in order.
pub fn to_chars(s: &str) -> (v: Vec<char>)
    ensures
        v@ == s@,
{
    let mut v: Vec<char> = Vec::new();
    for c in it: s.chars()
        invariant
            it.seq() == s@,
            v@ == it.seq().take(it.index() as int),
    {
        v.push(c);
    }
    v
}

} // verus!

verus! {

/// Concatenates two texts.
pub fn concat_str(a: &str, b: &str) -> (r: String)
    ensures
        r@ == a@ + b@,
{
    let mut s = String::from_str(a);
    s.append(b);
    s
}

/// A string followed by a text.
pub fn concat_string(a: &String, b: &str) -> (r: String)
    ensures
        r@ == a@ + b@,
{
    concat_str(a.as_str(), b)
}

/// Appends a character to a string, by `String::push`.
///
/// Claims what the documentation of `String::push` says: the character is
/// added at the end.
#[verifier::external_body]
pub(crate) fn push_char(s: &mut String, c: char)
    ensures
        final(s)@ == old(s)@.push(c),
{
    s.push(c);
}

/// The string of the characters `v[from..to]`.
pub fn string_from_chars(v: &Vec<char>, from: usize, to: usize) -> (r: String)
    requires
        from <= to <= v@.len(),
    ensures
        r@ == v@.subrange(from as int, to as int),
{
    let mut r = String::new();
    let mut i = from;
    while i < to
        invariant
            from <= i <= to <= v@.len(),
            r@ == v@.subrange(from as int, i as int),
        decreases to - i,
    {
        push_char(&mut r, v[i]);
        assert(v@.subrange(from as int, i + 1) =~= v@.subrange(from as int, i as int).push(v@[i as int]));
        i = i + 1;
    }
    r
}

/// Whether the characters of `lit` stand in `s` from position `j` on.
pub open spec fn literal_at(s: Seq<char>, j: int, lit: Seq<char>) -> bool {
    0 <= j && j + lit.len() <= s.len() && s.subrange(j, j + lit.len()) == lit
}

/// Tests whether the characters of `lit` stand in `s` from position `j` on.
pub fn has_literal_at(s: &Vec<char>, j: usize, lit: &str) -> (r: bool)
    ensures
        r == literal_at(s@, j as int, lit@),
{
    let n = s.len();
    let m = lit.unicode_len();
    if j > n || m > n - j {
        return false;
    }
    let mut k: usize = 0;
    while k < m
        invariant
            n == s@.len(),
            m == lit@.len(),
            j + m <= n,
            k <= m,
            forall|t: int| 0 <= t < k ==> s@[j + t] == lit@[t],
        decreases m - k,
    {
        if s[j + k] != lit.get_char(k) {
            assert(s@.subrange(j as int, j + m)[k as int] != lit@[k as int]);
            return false;
        }
        k = k + 1;
    }
    assert(s@.subrange(j as int, j + m) =~= lit@);
    true
}

/// Characters with the Unicode property `White_Space` (`\s` of the
/// `regex` crate, and `char::is_whitespace`).
pub open spec fn is_white_space(c: char) -> bool {
    ('\u{9}' <= c && c <= '\u{d}') ||
    c == '\u{20}' ||
    c == '\u{85}' ||
    c == '\u{a0}' ||
    c == '\u{1680}' ||
    ('\u{2000}' <= c && c <= '\u{200a}') ||
    ('\u{2028}' <= c && c <= '\u{2029}') ||
    c == '\u{202f}' ||
    c == '\u{205f}' ||
    c == '\u{3000}'
}

/// Tests whether a character has the Unicode property `White_Space`.
pub fn white_space(c: char) -> (r: bool)
    ensures
        r == is_white_space(c),
{
    ('\u{9}' <= c && c <= '\u{d}') ||
    c == '\u{20}' ||
    c == '\u{85}' ||
    c == '\u{a0}' ||
    c == '\u{1680}' ||
    ('\u{2000}' <= c && c <= '\u{200a}') ||
    ('\u{2028}' <= c && c <= '\u{2029}') ||
    c == '\u{202f}' ||
    c == '\u{205f}' ||
    c == '\u{3000}'
}

} // verus!
