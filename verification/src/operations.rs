//! Operations that change a single `Term`: substitutions of its sounds, lopa and samjnas.
use crate::constants::Tag as T;
use crate::sounds;
use crate::strings;
use crate::term::Term;
use vstd::prelude::*;

verus! {

/// Whether `b` equals `a` in everything but its text.
pub open spec fn same_but_text(a: Term, b: Term) -> bool {
    a.u == b.u && a.tags == b.tags && a.gana == b.gana && a.number == b.number && a.lakshana
        == b.lakshana
}

/// Whether `b` equals `a` in everything but its text and its tags.
pub open spec fn same_but_text_and_tags(a: Term, b: Term) -> bool {
    a.u == b.u && a.gana == b.gana && a.number == b.number && a.lakshana == b.lakshana
}

/// `text` with its first sound replaced by `sub`.
pub open spec fn replace_adi(text: Seq<char>, sub: Seq<char>) -> Seq<char> {
    if text.len() > 0 {
        sub + text.subrange(1, text.len() as int)
    } else {
        text
    }
}

/// `text` with its last sound replaced by `sub`.
pub open spec fn replace_antya(text: Seq<char>, sub: Seq<char>) -> Seq<char> {
    if text.len() > 0 {
        text.subrange(0, text.len() - 1) + sub
    } else {
        text
    }
}

/// `text` with its penultimate sound replaced by `sub`.
pub open spec fn replace_upadha(text: Seq<char>, sub: Seq<char>) -> Seq<char> {
    if text.len() > 1 {
        text.subrange(0, text.len() - 2) + sub + text.subrange(text.len() - 1, text.len() as int)
    } else {
        text
    }
}

/// The index of the last vowel of `text` before index `n`, or -1 where there is none.
pub open spec fn last_vowel_before(text: Seq<char>, n: int) -> int
    decreases n,
{
    if n <= 0 {
        -1
    } else if sounds::spec_is_ac(text[n - 1]) {
        n - 1
    } else {
        last_vowel_before(text, n - 1)
    }
}

/// The index of the last vowel of `text`, or -1 where there is none.
pub open spec fn last_vowel(text: Seq<char>) -> int {
    last_vowel_before(text, text.len() as int)
}

/// `text` with `sub` inserted right after its last vowel (1.1.47).
pub open spec fn insert_after_last_vowel(text: Seq<char>, sub: Seq<char>) -> Seq<char> {
    let i = last_vowel(text);
    if i >= 0 {
        text.subrange(0, i + 1) + sub + text.subrange(i + 1, text.len() as int)
    } else {
        text
    }
}

/// `text` with its ti, the part from its last vowel on (1.1.64), replaced by `sub`.
pub open spec fn replace_ti(text: Seq<char>, sub: Seq<char>) -> Seq<char> {
    let i = last_vowel(text);
    if i >= 0 {
        text.subrange(0, i) + sub
    } else {
        text
    }
}

proof fn lemma_last_vowel_before(text: Seq<char>, n: int)
    requires
        0 <= n <= text.len(),
    ensures
        -1 <= last_vowel_before(text, n) < n,
        last_vowel_before(text, n) >= 0 ==> sounds::spec_is_ac(text[last_vowel_before(text, n)]),
        forall|k: int|
            last_vowel_before(text, n) < k < n ==> !sounds::spec_is_ac(#[trigger] text[k]),
    decreases n,
{
    if n > 0 && !sounds::spec_is_ac(text[n - 1]) {
        lemma_last_vowel_before(text, n - 1);
    }
}

/// Returns the index of the last vowel of `text`, if any.
pub(crate) fn find_last_vowel(text: &str) -> (r: Option<usize>)
    ensures
        match r {
            Some(i) => i as int == last_vowel(text@),
            None => last_vowel(text@) == -1,
        },
        r matches Some(i) ==> i < text@.len(),
        text@.len() <= usize::MAX,
{
    let n = text.unicode_len();
    let mut i: usize = n;
    while i > 0
        invariant
            i <= n,
            n == text@.len(),
            last_vowel(text@) == last_vowel_before(text@, i as int),
        decreases i,
    {
        if sounds::is_ac(text.get_char(i - 1)) {
            return Some(i - 1);
        }
        i = i - 1;
    }
    None
}

/// Returns `text` with the sounds at `[from, to)` replaced by `sub`.
pub(crate) fn splice(text: &str, from: usize, to: usize, sub: &str) -> (r: String)
    requires
        from <= to <= text@.len(),
    ensures
        r@ == text@.subrange(0, from as int) + sub@ + text@.subrange(to as int, text@.len() as int),
{
    let n = text.unicode_len();
    let head = strings::substring(text, 0, from);
    let with_sub = head.concat(sub);
    with_sub.concat(text.substring_char(to, n))
}

// Substitution
// ============
/// Replaces the first sound in the given term.
pub fn adi(t: &mut Term, sub: &str)
    ensures
        final(t).text@ == replace_adi(old(t).text@, sub@),
        same_but_text(*old(t), *final(t)),
{
    if let Some(c) = t.adi() {
        let cs = strings::char_string(c);
        if !strings::str_eq(cs.as_str(), sub) {
            t.text = splice(t.text.as_str(), 0, 1, sub);
        } else {
            assert(t.text@ =~= replace_adi(t.text@, sub@));
        }
    }
}

/// Replaces the last sound in the given term.
pub fn antya(t: &mut Term, sub: &str)
    ensures
        final(t).text@ == replace_antya(old(t).text@, sub@),
        same_but_text(*old(t), *final(t)),
{
    if let Some(c) = t.antya() {
        let cs = strings::char_string(c);
        if !strings::str_eq(cs.as_str(), sub) {
            let n = t.text.as_str().unicode_len();
            t.text = splice(t.text.as_str(), n - 1, n, sub);
            assert(t.text@ =~= replace_antya(old(t).text@, sub@));
        } else {
            assert(t.text@ =~= replace_antya(t.text@, sub@));
        }
    }
}

/// Replaces the penultimate sound in the given term.
pub fn upadha(t: &mut Term, sub: &str)
    ensures
        final(t).text@ == replace_upadha(old(t).text@, sub@),
        same_but_text(*old(t), *final(t)),
{
    if let Some(c) = t.upadha() {
        let cs = strings::char_string(c);
        if !strings::str_eq(cs.as_str(), sub) {
            let n = t.text.as_str().unicode_len();
            t.text = splice(t.text.as_str(), n - 2, n - 1, sub);
        } else {
            assert(t.text@ =~= replace_upadha(t.text@, sub@));
        }
    }
}

/// Inserts `sub` right after the term's last vowel.
pub fn mit(t: &mut Term, sub: &str)
    ensures
        final(t).text@ == insert_after_last_vowel(old(t).text@, sub@),
        same_but_text(*old(t), *final(t)),
{
    if let Some(i) = find_last_vowel(t.text.as_str()) {
        t.text = splice(t.text.as_str(), i + 1, i + 1, sub);
    }
}

/// Replaces the ti of the term, the part from its last vowel on.
pub fn ti(t: &mut Term, sub: &str)
    ensures
        final(t).text@ == replace_ti(old(t).text@, sub@),
        same_but_text(*old(t), *final(t)),
{
    if let Some(i) = find_last_vowel(t.text.as_str()) {
        let n = t.text.as_str().unicode_len();
        t.text = splice(t.text.as_str(), i, n, sub);
        assert(t.text@ =~= replace_ti(old(t).text@, sub@));
    }
}

// Lopa
// ====
/// Deletes the text in the given term.
pub fn lopa(t: &mut Term)
    ensures
        final(t).text@ == Seq::<char>::empty(),
        same_but_text(*old(t), *final(t)),
{
    t.text = String::new();
}

/// Deletes the text in the given term through luk.
pub fn luk(t: &mut Term)
    ensures
        final(t).text@ == Seq::<char>::empty(),
        final(t).tags@ == old(t).tags@.insert(T::Luk),
        same_but_text_and_tags(*old(t), *final(t)),
{
    lopa(t);
    t.add_tag(T::Luk);
}

/// Deletes the text in the given term through slu.
pub fn slu(t: &mut Term)
    ensures
        final(t).text@ == Seq::<char>::empty(),
        final(t).tags@ == old(t).tags@.insert(T::Slu),
        same_but_text_and_tags(*old(t), *final(t)),
{
    lopa(t);
    t.add_tag(T::Slu);
}

/// Deletes the text in the given term through lup.
pub fn lup(t: &mut Term)
    ensures
        final(t).text@ == Seq::<char>::empty(),
        final(t).tags@ == old(t).tags@.insert(T::Lup),
        same_but_text_and_tags(*old(t), *final(t)),
{
    lopa(t);
    t.add_tag(T::Lup);
}

// Tags
// ====
/// Adds the given samjna.
pub fn samjna(t: &mut Term, tag: T)
    ensures
        final(t).tags@ == old(t).tags@.insert(tag),
        final(t).text == old(t).text,
        same_but_text_and_tags(*old(t), *final(t)),
{
    t.add_tag(tag);
}

/// Leaves the term as it is.
pub fn none(_t: &mut Term)
    ensures
        *final(_t) == *old(_t),
{
}

} // verus!
