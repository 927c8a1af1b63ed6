//! Filters: tests of whether a rule can apply to a `Term`.
//!
//! A rule is a filter, which says whether it applies, and an operator, which changes the
//! derivation. This module holds standalone filters and functions that build filters.
use crate::constants::Tag as T;
use crate::sounds as al;
use crate::strings;
use crate::term::{seq_has_str, spec_antya, spec_upadha, strings_have, Term};
use vstd::prelude::*;

verus! {

/// The number of vowels in `s`.
pub open spec fn count_vowels(s: Seq<char>) -> nat
    decreases s.len(),
{
    if s.len() == 0 {
        0
    } else {
        count_vowels(s.drop_last()) + if al::spec_is_ac(s.last()) {
            1nat
        } else {
            0nat
        }
    }
}

/// Whether the last syllable of `t` is or could be laghu (1.4.10 - 1.4.12).
pub open spec fn spec_is_laghu(t: Term) -> bool {
    match spec_antya(t.text@) {
        Some(c) => if al::spec_is_ac(c) {
            al::spec_is_hrasva(c)
        } else {
            (spec_upadha(t.text@) matches Some(u) && al::spec_is_hrasva(u)) && c != 'C'
        },
        None => false,
    }
}

/// Whether the last sound of `t` is long.
pub open spec fn spec_is_dirgha(t: Term) -> bool {
    spec_antya(t.text@) matches Some(c) && al::spec_is_dirgha(c)
}

/// Returns whether the given term has exactly one vowel sound.
pub fn is_eka_ac(t: &Term) -> (r: bool)
    ensures
        r == (count_vowels(t.text@) == 1),
{
    let text = t.text.as_str();
    let n = text.unicode_len();
    let mut num_ac: usize = 0;
    let mut i: usize = 0;
    while i < n
        invariant
            i <= n,
            n == text@.len(),
            text@ == t.text@,
            num_ac == count_vowels(text@.subrange(0, i as int)),
            num_ac <= i,
        decreases n - i,
    {
        assert(text@.subrange(0, (i + 1) as int).drop_last() =~= text@.subrange(0, i as int));
        if al::is_ac(text.get_char(i)) {
            num_ac = num_ac + 1;
        }
        i = i + 1;
    }
    assert(text@.subrange(0, n as int) =~= text@);
    num_ac == 1
}

/// Returns whether the term begins with a conjunct consonant.
pub fn is_samyogadi(t: &Term) -> (r: bool)
    ensures
        r == al::spec_is_samyogadi(t.text@),
{
    al::is_samyogadi(t.text.as_str())
}

/// Returns whether the term ends in a conjunct consonant.
pub fn is_samyoganta(t: &Term) -> (r: bool)
    ensures
        r == al::spec_is_samyoganta(t.text@),
{
    al::is_samyoganta(t.text.as_str())
}

/// Returns whether the term is a pratyaya with exactly one sound.
pub fn is_aprkta(t: &Term) -> (r: bool)
    ensures
        r == (t.tagged(T::Pratyaya) && t.text@.len() == 1),
{
    t.has_tag(T::Pratyaya) && t.text.as_str().unicode_len() == 1
}

/// Returns whether the last syllable of `t` is or could be laghu.
pub fn is_laghu(t: &Term) -> (r: bool)
    ensures
        r == spec_is_laghu(*t),
{
    // 1.4.10 hrasvaM laghu
    // 1.4.11 saMyoge guru
    // 1.4.12 dIrghaM ca
    if let Some(c) = t.antya() {
        if al::is_ac(c) {
            al::is_hrasva(c)
        } else {
            // upadha is hrasva --> laghu
            // upadha is dirgha --> guru
            // upadha is hal --> guru (samyoga)
            // upadha is missing --> laghu
            let upadha_is_hrasva = match t.upadha() {
                Some(u) => al::is_hrasva(u),
                None => false,
            };
            // HACK for C, which will always become cC (= guru).
            upadha_is_hrasva && c != 'C'
        }
    } else {
        false
    }
}

/// Returns whether the last syllable of `t` is guru.
pub fn is_guru(t: &Term) -> (r: bool)
    ensures
        r == !spec_is_laghu(*t),
{
    !is_laghu(t)
}

/// Returns whether the term does not end in a long vowel.
pub fn is_hrasva(t: &Term) -> (r: bool)
    ensures
        r == !spec_is_dirgha(*t),
{
    !is_dirgha(t)
}

/// Returns whether the term ends in a long vowel.
pub fn is_dirgha(t: &Term) -> (r: bool)
    ensures
        r == spec_is_dirgha(*t),
{
    match t.antya() {
        Some(c) => al::is_dirgha(c),
        None => false,
    }
}

/// Returns a filter for terms whose text ends with `sub`.
pub fn ends_with(sub: &'static str) -> (r: impl Fn(&Term) -> bool)
    ensures
        forall|t: &Term| call_requires(r, (t,)),
        forall|t: &Term, b: bool|
            #[trigger] call_ensures(r, (t,), b) ==> b == (sub@.len() <= t.text@.len() && t.text@.subrange(
                t.text@.len() - sub@.len(),
                t.text@.len() as int,
            ) == sub@),
{
    move |t: &Term| -> (b: bool)
        ensures
            b == (sub@.len() <= t.text@.len() && t.text@.subrange(
                t.text@.len() - sub@.len(),
                t.text@.len() as int,
            ) == sub@),
        { strings::ends_with(t.text.as_str(), sub) }
}

/// Returns whether the term has no text.
pub fn empty(t: &Term) -> (r: bool)
    ensures
        r == (t.text@.len() == 0),
{
    t.text.as_str().unicode_len() == 0
}

/// Returns a filter for terms that have the tag `wanted`.
pub fn tag(wanted: T) -> (r: impl Fn(&Term) -> bool)
    ensures
        forall|t: &Term| call_requires(r, (t,)),
        forall|t: &Term, b: bool| #[trigger] call_ensures(r, (t,), b) ==> b == t.tagged(wanted),
{
    move |t: &Term| -> (b: bool)
        ensures
            b == t.tagged(wanted),
        { t.has_tag(wanted) }
}

/// Returns a filter for terms that have one of `tags`.
pub fn tag_in(tags: &'static [T]) -> (r: impl Fn(&Term) -> bool)
    ensures
        forall|t: &Term| call_requires(r, (t,)),
        forall|t: &Term, b: bool|
            #[trigger] call_ensures(r, (t,), b) ==> b == exists|k: int|
                0 <= k < tags@.len() && t.tagged(#[trigger] tags@[k]),
{
    move |t: &Term| -> (b: bool)
        ensures
            b == exists|k: int| 0 <= k < tags@.len() && t.tagged(#[trigger] tags@[k]),
        { t.has_tag_in(tags) }
}

/// Returns whether the term is a dhatu.
pub fn dhatu(t: &Term) -> (r: bool)
    ensures
        r == t.tagged(T::Dhatu),
{
    t.has_tag(T::Dhatu)
}

/// Returns whether the term is an Atmanepada pratyaya.
pub fn atmanepada(t: &Term) -> (r: bool)
    ensures
        r == t.tagged(T::Atmanepada),
{
    t.has_tag(T::Atmanepada)
}

/// Returns whether the term is a Sarvadhatuka pratyaya.
pub fn sarvadhatuka(t: &Term) -> (r: bool)
    ensures
        r == t.tagged(T::Sarvadhatuka),
{
    t.has_tag(T::Sarvadhatuka)
}

/// Returns whether the term is a sup pratyaya.
pub fn sup(t: &Term) -> (r: bool)
    ensures
        r == t.tagged(T::Sup),
{
    t.has_tag(T::Sup)
}

/// Returns a filter for terms whose text is exactly `x`.
pub fn text(x: &'static str) -> (r: impl Fn(&Term) -> bool)
    ensures
        forall|t: &Term| call_requires(r, (t,)),
        forall|t: &Term, b: bool| #[trigger] call_ensures(r, (t,), b) ==> b == (t.text@ == x@),
{
    move |t: &Term| -> (b: bool)
        ensures
            b == (t.text@ == x@),
        { t.has_text(x) }
}

/// Returns a filter for terms whose text is one of `xs`.
pub fn text_in(xs: &'static [&str]) -> (r: impl Fn(&Term) -> bool)
    ensures
        forall|t: &Term| call_requires(r, (t,)),
        forall|t: &Term, b: bool| #[trigger] call_ensures(r, (t,), b) ==> b == seq_has_str(xs@, t.text@),
{
    move |t: &Term| -> (b: bool)
        ensures
            b == seq_has_str(xs@, t.text@),
        { t.has_text_in(xs) }
}

/// Returns a filter for terms that have the former upadesha `text`.
pub fn lakshana(text: &'static str) -> (r: impl Fn(&Term) -> bool)
    ensures
        forall|t: &Term| call_requires(r, (t,)),
        forall|t: &Term, b: bool|
            #[trigger] call_ensures(r, (t,), b) ==> b == strings_have(t.lakshana@, text@),
{
    move |t: &Term| -> (b: bool)
        ensures
            b == strings_have(t.lakshana@, text@),
        { t.has_lakshana(text) }
}

/// Returns a filter for terms that have one of the former upadeshas `xs`.
pub fn lakshana_in(xs: &'static [&str]) -> (r: impl Fn(&Term) -> bool)
    ensures
        forall|t: &Term| call_requires(r, (t,)),
        forall|t: &Term, b: bool| #[trigger] call_ensures(r, (t,), b) ==> b == t.lakshana_among(xs@),
{
    move |t: &Term| -> (b: bool)
        ensures
            b == t.lakshana_among(xs@),
        { t.has_lakshana_in(xs) }
}

/// Returns a filter for terms whose upadesha is exactly `upadesha`.
pub fn u(upadesha: &'static str) -> (r: impl Fn(&Term) -> bool)
    ensures
        forall|t: &Term| call_requires(r, (t,)),
        forall|t: &Term, b: bool| #[trigger] call_ensures(r, (t,), b) ==> b == t.u_is(upadesha@),
{
    move |t: &Term| -> (b: bool)
        ensures
            b == t.u_is(upadesha@),
        { t.has_u(upadesha) }
}

/// Returns a filter for terms whose upadesha is one of `us`.
pub fn u_in(us: &'static [&str]) -> (r: impl Fn(&Term) -> bool)
    ensures
        forall|t: &Term| call_requires(r, (t,)),
        forall|t: &Term, b: bool|
            #[trigger] call_ensures(r, (t,), b) ==> b == (t.u matches Some(x) && seq_has_str(us@, x@)),
{
    move |t: &Term| -> (b: bool)
        ensures
            b == (t.u matches Some(x) && seq_has_str(us@, x@)),
        { t.has_u_in(us) }
}

/// Returns whether the term is the dhatu `as` of the second gana.
pub fn is_asti(t: &Term) -> (r: bool)
    ensures
        r == (t.u_is("asa~"@) && t.gana == Some(2i32)),
{
    t.has_u("asa~") && t.has_gana(2)
}

/// Returns whether the term is the agama iw.
pub fn is_it_agama(t: &Term) -> (r: bool)
    ensures
        r == (t.u_is("iw"@) && t.tagged(T::Agama)),
{
    t.has_u("iw") && t.has_tag(T::Agama)
}

} // verus!
