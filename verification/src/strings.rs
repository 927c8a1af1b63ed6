//! Small verified helpers for working with `String` and `&str` as sequences of sounds.
//!
//! Text in this crate is SLP1, so every sound is one `char`. These helpers let the rest of the
//! crate reason about text through its view, a `Seq<char>`.
use vstd::prelude::*;

verus! {

/// Appends one char to a `String`.
///
/// Calls `String::push`, which std documents as appending the given char to the end of the
/// string. The contract claims exactly that of the char view.
#[verifier::external_body]
pub(crate) fn push_char(s: &mut String, c: char)
    ensures
        final(s)@ == old(s)@.push(c),
{
    s.push(c);
}

/// Returns the chars of `s` as a vector.
pub fn chars_of(s: &str) -> (v: Vec<char>)
    ensures
        v@ == s@,
{
    let n = s.unicode_len();
    let mut v: Vec<char> = Vec::new();
    let mut i: usize = 0;
    while i < n
        invariant
            n == s@.len(),
            i <= n,
            v@ == s@.subrange(0, i as int),
        decreases n - i,
    {
        v.push(s.get_char(i));
        i = i + 1;
    }
    v
}

/// Builds a `String` from a sequence of chars.
pub fn string_from_chars(v: &[char]) -> (s: String)
    ensures
        s@ == v@,
{
    let mut s = String::new();
    let mut i: usize = 0;
    while i < v.len()
        invariant
            i <= v@.len(),
            s@ == v@.subrange(0, i as int),
        decreases v@.len() - i,
    {
        push_char(&mut s, v[i]);
        i = i + 1;
    }
    s
}

/// Copies a `&str` into a new `String`.
pub fn string_from(s: &str) -> (r: String)
    ensures
        r@ == s@,
{
    s.to_string()
}

/// Returns a `String` that holds exactly the char `c`.
pub fn char_string(c: char) -> (r: String)
    ensures
        r@ == seq![c],
{
    let mut r = String::new();
    push_char(&mut r, c);
    r
}

/// Returns whether two strings have the same chars.
pub fn str_eq(a: &str, b: &str) -> (r: bool)
    ensures
        r == (a@ == b@),
{
    let n = a.unicode_len();
    let m = b.unicode_len();
    if n != m {
        return false;
    }
    let mut i: usize = 0;
    while i < n
        invariant
            n == a@.len(),
            m == b@.len(),
            n == m,
            i <= n,
            a@.subrange(0, i as int) == b@.subrange(0, i as int),
        decreases n - i,
    {
        if a.get_char(i) != b.get_char(i) {
            assert(a@[i as int] != b@[i as int]);
            return false;
        }
        assert(a@.subrange(0, (i + 1) as int) == a@.subrange(0, i as int).push(a@[i as int]));
        assert(b@.subrange(0, (i + 1) as int) == b@.subrange(0, i as int).push(b@[i as int]));
        i = i + 1;
    }
    assert(a@ == a@.subrange(0, n as int));
    assert(b@ == b@.subrange(0, n as int));
    true
}

/// Returns whether `needle` equals one of the strings in `items`.
pub fn str_in(needle: &str, items: &[&str]) -> (r: bool)
    ensures
        r == exists|k: int| 0 <= k < items@.len() && (#[trigger] items@[k])@ == needle@,
{
    let mut i: usize = 0;
    while i < items.len()
        invariant
            i <= items@.len(),
            forall|k: int| 0 <= k < i ==> (#[trigger] items@[k])@ != needle@,
        decreases items@.len() - i,
    {
        if str_eq(items[i], needle) {
            return true;
        }
        i = i + 1;
    }
    false
}

/// Returns `s[from..to]`, counted in chars, as a new `String`.
pub fn substring(s: &str, from: usize, to: usize) -> (r: String)
    requires
        from <= to <= s@.len(),
    ensures
        r@ == s@.subrange(from as int, to as int),
{
    string_from(s.substring_char(from, to))
}

/// Returns `a` followed by `b`.
pub fn concat(a: &str, b: &str) -> (r: String)
    ensures
        r@ == a@ + b@,
{
    let r = string_from(a);
    r.concat(b)
}

/// Returns whether `s` begins with `prefix`.
pub fn starts_with(s: &str, prefix: &str) -> (r: bool)
    ensures
        r == (prefix@.len() <= s@.len() && s@.subrange(0, prefix@.len() as int) == prefix@),
{
    let n = s.unicode_len();
    let m = prefix.unicode_len();
    if m > n {
        return false;
    }
    let head = s.substring_char(0, m);
    str_eq(head, prefix)
}

/// Returns whether `s` ends with `suffix`.
pub fn ends_with(s: &str, suffix: &str) -> (r: bool)
    ensures
        r == (suffix@.len() <= s@.len() && s@.subrange(
            s@.len() - suffix@.len(),
            s@.len() as int,
        ) == suffix@),
{
    let n = s.unicode_len();
    let m = suffix.unicode_len();
    if m > n {
        return false;
    }
    let tail = s.substring_char(n - m, n);
    str_eq(tail, suffix)
}

/// Returns whether `s` contains `needle` as a contiguous substring.
pub fn contains_str(s: &str, needle: &str) -> (r: bool)
    ensures
        r == exists|k: int|
            0 <= k && k + needle@.len() <= s@.len() && #[trigger] s@.subrange(
                k,
                k + needle@.len(),
            ) == needle@,
{
    let n = s.unicode_len();
    let m = needle.unicode_len();
    if m > n {
        assert forall|k: int|
            0 <= k && k + needle@.len() <= s@.len() implies #[trigger] s@.subrange(
                k,
                k + needle@.len(),
            ) != needle@ by {}
        return false;
    }
    let mut k: usize = 0;
    loop
        invariant
            n == s@.len(),
            m == needle@.len(),
            m <= n,
            k <= n - m,
            forall|j: int| 0 <= j < k ==> #[trigger] s@.subrange(j, j + m) != needle@,
        decreases n - m - k,
    {
        if str_eq(s.substring_char(k, k + m), needle) {
            return true;
        }
        if k == n - m {
            assert forall|j: int| 0 <= j && j + m <= n implies #[trigger] s@.subrange(j, j + m)
                != needle@ by {
                assert(j <= k);
            }
            return false;
        }
        k = k + 1;
    }
}

} // verus!
