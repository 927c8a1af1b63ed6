//! Rules that modify the abhyasa (7.4.58 - end of 7.4).
use crate::constants::Tag as T;
use crate::filters as f;
use crate::operations::{replace_adi, replace_antya, same_but_text};
use crate::operators as op;
use crate::prakriya::{lemma_rewrote_refl, lemma_rewrote_trans, Prakriya};
use crate::sounds::{
    closest_sound, filter_in, lemma_filter_in_nonempty, lemma_one_word, lemma_two_words,
    panini_order, spec_is_ac, spec_is_dirgha, spec_is_hal, spec_s, spec_to_hrasva,
    valid_sound_list,
};
use crate::sounds;
use crate::strings;
use crate::term::{strings_have, Term};
use vstd::prelude::*;

verus! {

/// The sounds of the pratyahara `Sar`.
pub open spec fn shar() -> Set<char> {
    spec_s("Sar"@)
}

/// The sounds of the pratyahara `Kay`.
pub open spec fn khay() -> Set<char> {
    spec_s("Kay"@)
}

proof fn lemma_sar_kay()
    ensures
        valid_sound_list("Sar"@),
        valid_sound_list("Kay"@),
{
    reveal_strlit("Sar");
    reveal_strlit("Kay");
    lemma_one_word("Sar"@);
    lemma_one_word("Kay"@);
    reveal_with_fuel(crate::sounds::sutra_with, 15);
    assert(crate::sounds::sutra_with('S', 0) < 14);
    assert(crate::sounds::sutra_with('K', 0) < 14);
}

/// The first index, at `i` or later, of a sound of `s` that is not a consonant; `s.len()`
/// where there is none.
pub open spec fn first_non_hal(s: Seq<char>, i: int) -> int
    decreases s.len() - i,
{
    if i < 0 || i >= s.len() {
        s.len() as int
    } else if !spec_is_hal(s[i]) {
        i
    } else {
        first_non_hal(s, i + 1)
    }
}

/// The abhyasa `s` after 7.4.60 (halādiḥ śeṣaḥ): its first consonant, if it starts with one,
/// and the first sound after it that is not a consonant.
pub open spec fn spec_haladi(s: Seq<char>) -> Seq<char> {
    let head = if s.len() > 0 && spec_is_hal(s[0]) {
        seq![s[0]]
    } else {
        Seq::<char>::empty()
    };
    let k = first_non_hal(s, 0);
    if k < s.len() {
        head.push(s[k])
    } else {
        head
    }
}

/// The first index, at `i` or later, of a vowel of `s` that is not in `keep`; `s.len()` where
/// there is none.
pub open spec fn first_kept_vowel(s: Seq<char>, keep: Set<char>, i: int) -> int
    decreases s.len() - i,
{
    if i < 0 || i >= s.len() {
        s.len() as int
    } else if !keep.contains(s[i]) && spec_is_ac(s[i]) {
        i
    } else {
        first_kept_vowel(s, keep, i + 1)
    }
}

/// The sounds of `s` that are in `keep`, in order.
pub open spec fn only_in(s: Seq<char>, keep: Set<char>) -> Seq<char>
    decreases s.len(),
{
    if s.len() == 0 {
        s
    } else if keep.contains(s.last()) {
        only_in(s.drop_last(), keep).push(s.last())
    } else {
        only_in(s.drop_last(), keep)
    }
}

/// The abhyasa `s` after 7.4.61 (śarpūrvāḥ khayaḥ): after the first sound, the sounds of
/// `Kay` up to the first vowel, and that vowel.
pub open spec fn spec_shar_purva(s: Seq<char>) -> Seq<char> {
    if s.len() == 0 {
        s
    } else {
        let k = first_kept_vowel(s, khay(), 1);
        let kept = only_in(s.subrange(1, k), khay());
        if k < s.len() {
            kept.push(s[k])
        } else {
            kept
        }
    }
}

/// 7.4.60 leaves at most two sounds of a nonempty abhyasa, and at least one.
pub proof fn lemma_haladi_length(s: Seq<char>)
    ensures
        spec_haladi(s).len() <= 2,
        s.len() > 0 ==> spec_haladi(s).len() > 0,
{
    lemma_first_non_hal_bounds_from_zero(s);
}

proof fn lemma_first_non_hal_bounds_from_zero(s: Seq<char>)
    ensures
        0 <= first_non_hal(s, 0) <= s.len(),
        s.len() > 0 && !spec_is_hal(s[0]) ==> first_non_hal(s, 0) == 0,
{
    lemma_first_non_hal_bounds(s, 0);
}

/// Simplifies the abhyasa per 7.4.60.
pub fn try_haladi(text: &str) -> (r: String)
    ensures
        r@ == spec_haladi(text@),
{
    let mut ret = String::new();
    let n = text.unicode_len();
    let mut i: usize = 0;
    while i < n
        invariant
            n == text@.len(),
            i <= n,
            forall|j: int| 0 <= j < i ==> spec_is_hal(#[trigger] text@[j]),
            first_non_hal(text@, 0) == first_non_hal(text@, i as int),
            ret@ == if i > 0 && spec_is_hal(text@[0]) {
                seq![text@[0]]
            } else {
                Seq::<char>::empty()
            },
        decreases n - i,
    {
        let c = text.get_char(i);
        if sounds::is_hal(c) {
            if i == 0 {
                strings::push_char(&mut ret, c);
            }
        } else {
            strings::push_char(&mut ret, c);
            return ret;
        }
        i = i + 1;
    }
    ret
}

/// Simplifies the abhyasa per 7.4.61. The abhyasa starts with a sound of `Sar`.
pub fn try_shar_purva(text: &str) -> (r: String)
    requires
        text@.len() > 0 ==> shar().contains(text@[0]),
    ensures
        r@ == spec_shar_purva(text@),
{
    proof {
        lemma_sar_kay();
    }
    let khay_set = sounds::s("Kay");
    let mut ret = String::new();
    let n = text.unicode_len();
    if n == 0 {
        return ret;
    }
    let mut i: usize = 1;
    assert(text@.subrange(1, 1) =~= Seq::<char>::empty());
    while i < n
        invariant
            n == text@.len(),
            1 <= i <= n,
            khay_set.wf(),
            khay_set@ == khay(),
            first_kept_vowel(text@, khay(), 1) == first_kept_vowel(text@, khay(), i as int),
            ret@ == only_in(text@.subrange(1, i as int), khay()),
        decreases n - i,
    {
        let c = text.get_char(i);
        assert(text@.subrange(1, i + 1).drop_last() =~= text@.subrange(1, i as int));
        if khay_set.contains_char(c) {
            strings::push_char(&mut ret, c);
        } else if sounds::is_ac(c) {
            strings::push_char(&mut ret, c);
            return ret;
        }
        i = i + 1;
    }
    ret
}

/// The mapping of 7.4.62 (kuhoścuḥ): each sound of `ku~ h` to its closest sound of `cu~`.
pub open spec fn kuh_cu() -> Map<char, char> {
    Map::new(
        |x: char| filter_in(panini_order(), spec_s("ku~ h"@)).contains(x),
        |x: char| closest_sound(x, filter_in(panini_order(), spec_s("cu~"@))),
    )
}

proof fn lemma_kuh_cu()
    ensures
        valid_sound_list("ku~ h"@),
        valid_sound_list("cu~"@),
        filter_in(panini_order(), spec_s("cu~"@)).len() > 0,
{
    reveal_strlit("ku~ h");
    reveal_strlit("cu~");
    let ku = seq!['k', 'u', '~'];
    assert("ku~ h"@ =~= ku + seq![' '] + seq!['h']);
    lemma_two_words(ku, seq!['h']);
    lemma_one_word("cu~"@);
    assert(spec_s("cu~"@).contains('c')) by {
        let w = crate::sounds::words("cu~"@)[0];
        assert(w == "cu~"@);
        assert(crate::sounds::ends_with_u_tilde(w));
        assert(crate::sounds::spec_savarna('c')[0] == 'c');
        assert(crate::sounds::spec_savarna(w[0]).contains('c'));
        assert(crate::sounds::word_sounds(w).contains('c'));
    }
    assert(panini_order()[21] == 'c');
    lemma_filter_in_nonempty(panini_order(), spec_s("cu~"@), 'c');
}

/// Whether `i` is the index of the first term of `ts` that has `tag`.
pub open spec fn is_first_tagged(ts: Seq<Term>, tag: T, i: int) -> bool {
    &&& 0 <= i < ts.len()
    &&& ts[i].tagged(tag)
    &&& forall|j: int| 0 <= j < i ==> !(#[trigger] ts[j]).tagged(tag)
}

/// Whether the dhatu text `d` changes by 7.4.67 or 7.4.68, given the last term `last`.
pub open spec fn dhatu_changes(d: Seq<char>, last: Term) -> bool {
    d == "dyut"@ || (d == "vyaT"@ && strings_have(last.lakshana@, "li~w"@))
}

/// The dhatu text `d` after 7.4.67 (dyutisvāpyoḥ samprasāraṇam) and 7.4.68 (vyatho liṭi).
pub open spec fn dhatu_after(d: Seq<char>, last: Term) -> Seq<char> {
    if d == "dyut"@ {
        "dit"@
    } else if d == "vyaT"@ && strings_have(last.lakshana@, "li~w"@) {
        "viT"@
    } else {
        d
    }
}

/// The abhyasa `a` after 7.4.61 or 7.4.60, which apply where the dhatu `d` does not change.
pub open spec fn abhyasa_shortened(a: Seq<char>, d: Seq<char>, last: Term) -> Seq<char> {
    if dhatu_changes(d, last) {
        a
    } else if a.len() > 1 && shar().contains(a[0]) && khay().contains(a[1]) {
        spec_shar_purva(a)
    } else {
        spec_haladi(a)
    }
}

/// `a` with a first sound of `ku~ h` replaced per 7.4.62.
pub open spec fn kuh_to_cu(a: Seq<char>) -> Seq<char> {
    if a.len() > 0 && kuh_cu().dom().contains(a[0]) {
        replace_adi(a, seq![kuh_cu()[a[0]]])
    } else {
        a
    }
}

/// `a` with a last long vowel shortened per 7.4.59 (hrasvaḥ).
pub open spec fn antya_to_hrasva(a: Seq<char>) -> Seq<char> {
    if a.len() > 0 && spec_is_dirgha(a.last()) {
        replace_antya(a, seq![spec_to_hrasva(a.last())->0])
    } else {
        a
    }
}

/// `a` with a last `f` replaced by `a` per 7.4.66 (ur at).
pub open spec fn f_to_a(a: Seq<char>) -> Seq<char> {
    if a.len() > 0 && a.last() == 'f' {
        replace_antya(a, "a"@)
    } else {
        a
    }
}

/// The abhyasa `a` after `run`, where `d` is the dhatu that follows it and `last` is the last
/// term.
pub open spec fn abhyasa_after(a: Seq<char>, d: Seq<char>, last: Term) -> Seq<char> {
    f_to_a(antya_to_hrasva(kuh_to_cu(abhyasa_shortened(a, d, last))))
}

/// After `run`, the abhyasa ends neither in a long vowel (7.4.59, hrasvaḥ) nor in `f`, since
/// 7.4.66 (ur at) applies to what 7.4.59 leaves: an abhyasa that, after 7.4.60 - 7.4.62, ends in
/// `f` or `F` ends in `a`, and otherwise only a long final vowel changes, to its short
/// counterpart.
pub proof fn lemma_abhyasa_ends_short_without_f(a: Seq<char>, d: Seq<char>, last: Term)
    ensures
        ({
            let s = kuh_to_cu(abhyasa_shortened(a, d, last));
            let r = abhyasa_after(a, d, last);
            &&& r.len() == s.len()
            &&& r.len() > 0 ==> !spec_is_dirgha(r.last()) && r.last() != 'f'
            &&& s.len() > 0 && (s.last() == 'f' || s.last() == 'F') ==> r.last() == 'a'
            &&& s.len() > 0 && !(s.last() == 'f' || s.last() == 'F') ==> r == replace_antya(
                s,
                seq![if spec_is_dirgha(s.last()) {
                    spec_to_hrasva(s.last())->0
                } else {
                    s.last()
                }],
            )
        }),
{
    reveal_strlit("a");
    let s = kuh_to_cu(abhyasa_shortened(a, d, last));
    if s.len() > 0 {
        let h = antya_to_hrasva(s);
        assert(h.len() == s.len());
        assert(h.last() == if spec_is_dirgha(s.last()) {
            spec_to_hrasva(s.last())->0
        } else {
            s.last()
        });
        let r = f_to_a(h);
        assert(r.len() == h.len());
        if !(s.last() == 'f' || s.last() == 'F') {
            assert(h.last() != 'f');
            assert(r == h);
            if !spec_is_dirgha(s.last()) {
                assert(replace_antya(s, seq![s.last()]) =~= s);
            }
        }
    }
}

/// Whether the first abhyasa of `ts` is followed by a dhatu, the case in which `run` applies.
pub open spec fn has_abhyasa_before_dhatu(ts: Seq<Term>, i: int) -> bool {
    is_first_tagged(ts, T::Abhyasa, i) && i + 1 < ts.len() && ts[i + 1].tagged(T::Dhatu)
}

proof fn lemma_first_non_hal_bounds(s: Seq<char>, i: int)
    requires
        0 <= i <= s.len(),
    ensures
        i <= first_non_hal(s, i) <= s.len(),
    decreases s.len() - i,
{
    if i < s.len() && spec_is_hal(s[i]) {
        lemma_first_non_hal_bounds(s, i + 1);
    }
}

proof fn lemma_first_kept_bounds(s: Seq<char>, keep: Set<char>, i: int)
    requires
        0 <= i <= s.len(),
    ensures
        i <= first_kept_vowel(s, keep, i) <= s.len(),
    decreases s.len() - i,
{
    if i < s.len() && !(!keep.contains(s[i]) && spec_is_ac(s[i])) {
        lemma_first_kept_bounds(s, keep, i + 1);
    }
}

proof fn lemma_only_in_nonempty(s: Seq<char>, keep: Set<char>)
    requires
        s.len() > 0,
        keep.contains(s[0]),
    ensures
        only_in(s, keep).len() > 0,
    decreases s.len(),
{
    if s.len() > 1 {
        assert(s.drop_last()[0] == s[0]);
        lemma_only_in_nonempty(s.drop_last(), keep);
    }
}

proof fn lemma_shortened_nonempty(a: Seq<char>, d: Seq<char>, last: Term)
    requires
        a.len() > 0,
    ensures
        abhyasa_shortened(a, d, last).len() > 0,
{
    if dhatu_changes(d, last) {
    } else if a.len() > 1 && shar().contains(a[0]) && khay().contains(a[1]) {
        lemma_first_kept_bounds(a, khay(), 2);
        let k = first_kept_vowel(a, khay(), 1);
        assert(k == first_kept_vowel(a, khay(), 2));
        let mid = a.subrange(1, k);
        assert(mid[0] == a[1]);
        lemma_only_in_nonempty(mid, khay());
    } else {
        lemma_first_non_hal_bounds(a, 0);
    }
}

fn ends_in_f(t: &Term) -> (b: bool)
    ensures
        b == (t.text@.len() > 0 && t.text@.last() == 'f'),
{
    t.has_antya('f')
}

/// Applies the rules of 7.4 that change the first abhyasa and the dhatu after it: 7.4.67 and
/// 7.4.68 for the dhatu, else 7.4.61 or 7.4.60 for the abhyasa; then 7.4.62, 7.4.59 and
/// 7.4.66 for the abhyasa. The abhyasa is the first term tagged `Abhyasa`; nothing changes
/// unless a dhatu follows it.
pub fn run(p: &mut Prakriya)
    requires
        forall|i: int|
            has_abhyasa_before_dhatu(old(p).terms_seq(), i) ==> old(p).terms_seq()[i].text@.len()
                > 0,
    ensures
        Prakriya::rewrote(*old(p), *final(p)),
        (forall|i: int| !has_abhyasa_before_dhatu(old(p).terms_seq(), i)) ==> *final(p) == *old(p),
        forall|i: int|
            has_abhyasa_before_dhatu(old(p).terms_seq(), i) ==> {
                let ts = old(p).terms_seq();
                let us = final(p).terms_seq();
                &&& us.len() == ts.len()
                &&& forall|j: int| 0 <= j < ts.len() && j != i && j != i + 1 ==> us[j] == ts[j]
                &&& same_but_text(ts[i], us[i])
                &&& us[i].text@ == abhyasa_after(ts[i].text@, ts[i + 1].text@, ts.last())
                &&& same_but_text(ts[i + 1], us[i + 1])
                &&& us[i + 1].text@ == dhatu_after(ts[i + 1].text@, ts.last())
            },
{
    proof {
        lemma_sar_kay();
        lemma_kuh_cu();
        lemma_rewrote_refl(*p);
    }
    let ghost p0 = *p;
    let ghost ts = p.terms_seq();
    let n = p.terms().len();
    let i = match p.find_first(T::Abhyasa) {
        Some(i) => i,
        None => {
            return;
        },
    };
    let i_dhatu = i + 1;
    if !p.has(i_dhatu, f::dhatu) {
        assert forall|j: int| !has_abhyasa_before_dhatu(ts, j) by {
            if has_abhyasa_before_dhatu(ts, j) {
                assert(j == i);
            }
        }
        return;
    }
    assert(has_abhyasa_before_dhatu(ts, i as int));
    assert forall|j: int| has_abhyasa_before_dhatu(ts, j) implies j == i by {}
    let shar_set = sounds::s("Sar");
    let khay_set = sounds::s("Kay");
    let kuh_cu_map = sounds::map_sounds("ku~ h", "cu~");
    let ghost a0 = ts[i as int].text@;
    let ghost d0 = ts[i + 1].text@;
    let ghost last = ts.last();
    let is_dyut = p.terms()[i_dhatu].has_text("dyut");
    let is_vyath = p.terms()[i_dhatu].has_text("vyaT");
    let is_lit = p.terms()[n - 1].has_lakshana("li~w");

    // Step 1: 7.4.67, 7.4.68, 7.4.61 or 7.4.60.
    if is_dyut {
        op::term_text(p, "7.4.67", i_dhatu, "dit");
    } else if is_vyath && is_lit {
        op::term_text(p, "7.4.68", i_dhatu, "viT");
    } else if shar_set.contains_opt(p.terms()[i].adi()) && khay_set.contains_opt(
        p.terms()[i].get(1),
    ) {
        let res = try_shar_purva(p.terms()[i].text.as_str());
        if !strings::str_eq(res.as_str(), p.terms()[i].text.as_str()) {
            let terms = p.terms_mut();
            let t = &mut terms[i];
            t.text = res;
            p.step("7.4.61");
        }
    } else {
        let res = try_haladi(p.terms()[i].text.as_str());
        if !strings::str_eq(res.as_str(), p.terms()[i].text.as_str()) {
            let terms = p.terms_mut();
            let t = &mut terms[i];
            t.text = res;
            p.step("7.4.60");
        }
    }
    let ghost p1 = *p;
    proof {
        lemma_rewrote_trans(p0, p0, p1);
        lemma_shortened_nonempty(a0, d0, last);
    }
    assert(p.terms_seq().len() == ts.len());
    assert(p.terms_seq()[i as int].text@ == abhyasa_shortened(a0, d0, last));
    assert(p.terms_seq()[i + 1].text@ == dhatu_after(d0, last));

    // Step 2: 7.4.62.
    if let Some(c) = p.terms()[i].adi() {
        if kuh_cu_map.contains(c) {
            if let Some(val) = kuh_cu_map.get(c) {
                let sub = strings::char_string(val);
                op::term_adi(p, "7.4.62", i, sub.as_str());
            }
        }
    }
    let ghost p2 = *p;
    proof {
        lemma_rewrote_refl(p1);
        lemma_rewrote_trans(p0, p1, p2);
    }

    // Step 3: a final long vowel becomes short (7.4.59), recorded under the code 7.4.62.
    if let Some(c) = p.terms()[i].antya() {
        if sounds::is_dirgha(c) {
            if let Some(h) = sounds::to_hrasva(c) {
                let sub = strings::char_string(h);
                op::term_antya(p, "7.4.62", i, sub.as_str());
            }
        }
    }
    let ghost p3 = *p;
    proof {
        lemma_rewrote_refl(p2);
        lemma_rewrote_trans(p0, p2, p3);
    }

    // Step 4: 7.4.66.
    if p.has(i, ends_in_f) {
        op::term_antya(p, "7.4.66", i, "a");
    }
    proof {
        lemma_rewrote_refl(p3);
        lemma_rewrote_trans(p0, p3, *p);
    }
}

} // verus!
