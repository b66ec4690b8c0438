//! Conversions between strings and their characters.
use vstd::prelude::*;

verus! {

/// The characters of `text`, in order.
pub fn chars_of(text: &str) -> (r: Vec<char>)
    ensures
        r@ == text@,
{
    let mut v: Vec<char> = Vec::new();
    for c in it: text.chars()
        invariant
            v@ == it.seq().take(it.index() as int),
    {
        v.push(c);
    }
    v
}

/// Relies on `String: FromIterator<char>`: the string holds the characters in order.
#[verifier::external_body]
pub(crate) fn string_from_chars(chars: &Vec<char>) -> (r: String)
    ensures
        r@ == chars@,
{
    chars.iter().collect()
}

/// Whether `s` begins with `prefix`.
pub open spec fn starts_with(s: Seq<char>, prefix: Seq<char>) -> bool {
    prefix.len() <= s.len() && s.take(prefix.len() as int) == prefix
}

/// `s` cut to its first `limit` characters followed by `notice`, when it is
/// longer than `limit`; otherwise `s` itself.
pub open spec fn clipped(s: Seq<char>, limit: nat, notice: Seq<char>) -> Seq<char> {
    if s.len() > limit {
        s.take(limit as int) + notice
    } else {
        s
    }
}

/// Whether `s` begins with `prefix`.
pub fn has_prefix(s: &str, prefix: &str) -> (r: bool)
    ensures
        r == starts_with(s@, prefix@),
{
    let a = chars_of(s);
    let b = chars_of(prefix);
    if b.len() > a.len() {
        return false;
    }
    let mut i: usize = 0;
    while i < b.len()
        invariant
            a@ == s@,
            b@ == prefix@,
            b@.len() <= a@.len(),
            i <= b@.len(),
            forall|j: int| 0 <= j < i ==> a@[j] == b@[j],
        decreases b@.len() - i,
    {
        if a[i] != b[i] {
            assert(a@.take(b@.len() as int)[i as int] != b@[i as int]);
            assert(a@.take(b@.len() as int) != b@);
            return false;
        }
        i = i + 1;
    }
    assert(a@.take(b@.len() as int) =~= b@);
    true
}

/// `text` cut to its first `limit` characters with `notice` after them, when
/// it is longer; otherwise a copy of `text`.
pub fn clip(text: &str, limit: usize, notice: &str) -> (r: String)
    ensures
        r@ == clipped(text@, limit as nat, notice@),
{
    let n = text.unicode_len();
    if n > limit {
        let mut r = String::from_str(text.substring_char(0, limit));
        r.append(notice);
        r
    } else {
        String::from_str(text)
    }
}

/// Whether every character of `s` is whitespace.
pub open spec fn is_blank(s: Seq<char>) -> bool {
    forall|i: int| 0 <= i < s.len() ==> crate::extract::is_space(#[trigger] s[i])
}

/// Whether `text` holds nothing but whitespace.
pub fn blank(text: &str) -> (r: bool)
    ensures
        r == is_blank(text@),
{
    let t = chars_of(text);
    let mut i: usize = 0;
    while i < t.len()
        invariant
            i <= t@.len(),
            t@ == text@,
            forall|j: int| 0 <= j < i ==> crate::extract::is_space(#[trigger] t@[j]),
        decreases t@.len() - i,
    {
        if !crate::extract::is_space_exec(t[i]) {
            return false;
        }
        i = i + 1;
    }
    true
}

} // verus!
