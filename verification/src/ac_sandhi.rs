//! Rules of vowel sandhi (6.1.66 - 6.1.101).
use crate::char_view::{
    char_rule, get_at, lemma_same_shape_trans, quiet_at, quiet_on, same_but_log, same_shape, set_at,
    xy,
};
use crate::constants::Tag as T;
use crate::operations::{replace_adi, replace_antya, same_but_text};
use crate::prakriya::{concat_texts, Prakriya};
use crate::sounds::{lemma_one_word, spec_s, spec_to_guna, spec_to_vrddhi, valid_sound_list};
use crate::sounds;
use crate::strings;
use crate::term::{lemma_next_nonempty_found, lemma_next_nonempty_none, next_nonempty, Term};
use vstd::prelude::*;

verus! {

pub(crate) proof fn lemma_sound_lists()
    ensures
        valid_sound_list("a"@),
        valid_sound_list("ak"@),
        valid_sound_list("ik"@),
        valid_sound_list("ac"@),
        valid_sound_list("ec"@),
        valid_sound_list("val"@),
{
    reveal_strlit("a");
    reveal_strlit("ak");
    reveal_strlit("ik");
    reveal_strlit("ac");
    reveal_strlit("ec");
    reveal_strlit("val");
    lemma_one_word("a"@);
    lemma_one_word("ak"@);
    lemma_one_word("ik"@);
    lemma_one_word("ac"@);
    lemma_one_word("ec"@);
    lemma_one_word("val"@);
    reveal_with_fuel(crate::sounds::sutra_with, 15);
    assert(crate::sounds::sutra_with('a', 0) < 14);
    assert(crate::sounds::sutra_with('i', 0) < 14);
    assert(crate::sounds::sutra_with('e', 0) < 14);
    assert(crate::sounds::sutra_with('v', 0) < 14);
}

/// The sounds of `ac` are the vowels.
pub proof fn lemma_ac_is_vowels(c: char)
    ensures
        spec_s("ac"@).contains(c) == crate::sounds::spec_is_ac(c),
{
    lemma_sound_lists();
    reveal_strlit("ac");
    let w = "ac"@;
    assert(w == seq!['a', 'c']);
    lemma_one_word(w);
    assert(crate::sounds::word_sounds(w) == crate::sounds::spec_pratyahara(w));
    reveal_with_fuel(crate::sounds::sutra_ending_in, 5);
    assert(crate::sounds::sutra_with('a', 0) == 0);
    assert(crate::sounds::index_from(crate::sounds::shiva_sutras()[0].0, 'a', 0) == 0);
    assert(crate::sounds::sutra_ending_in('c', 0) == 3);
    let set = crate::sounds::pratyahara_sounds('a', 'c', false);
    assert(spec_s(w) =~= set) by {
        assert forall|x: char| spec_s(w).contains(x) implies set.contains(x) by {
            let k = choose|k: int| 0 <= k < crate::sounds::words(w).len()
                && #[trigger] crate::sounds::word_sounds(crate::sounds::words(w)[k]).contains(x);
            assert(k == 0);
        }
        assert forall|x: char| set.contains(x) implies spec_s(w).contains(x) by {
            assert(crate::sounds::word_sounds(crate::sounds::words(w)[0]).contains(x));
        }
    }
    let ss = crate::sounds::shiva_sutras();
    if crate::sounds::spec_is_ac(c) {
        let (k, j): (int, int) = if c == 'a' || c == 'A' {
            (0, 0)
        } else if c == 'i' || c == 'I' {
            (0, 1)
        } else if c == 'u' || c == 'U' {
            (0, 2)
        } else if c == 'f' || c == 'F' {
            (1, 0)
        } else if c == 'x' || c == 'X' {
            (1, 1)
        } else if c == 'e' {
            (2, 0)
        } else if c == 'o' {
            (2, 1)
        } else if c == 'E' {
            (3, 0)
        } else {
            (3, 1)
        };
        assert(crate::sounds::sound_or_long_at(k, j, c));
        assert(set.contains(c));
    } else {
        if set.contains(c) {
            let (k, j) = choose|k: int, j: int|
                0 <= k <= 3 && 0 <= j < ss[k].0.len() && (k > 0 || j >= 0)
                    && #[trigger] crate::sounds::sound_or_long_at(k, j, c);
            if k == 0 {
            } else if k == 1 {
            } else if k == 2 {
            } else {
            }
            assert(false);
        }
    }
}

/// `a` and `A` are sounds of `ak`.
proof fn lemma_a_in_ak()
    ensures
        spec_s("ak"@).contains('a'),
        spec_s("ak"@).contains('A'),
{
    lemma_sound_lists();
    reveal_strlit("ak");
    let w = "ak"@;
    assert(w == seq!['a', 'k']);
    lemma_one_word(w);
    assert(crate::sounds::word_sounds(w) == crate::sounds::spec_pratyahara(w));
    reveal_with_fuel(crate::sounds::sutra_ending_in, 3);
    assert(crate::sounds::sutra_with('a', 0) == 0);
    assert(crate::sounds::index_from(crate::sounds::shiva_sutras()[0].0, 'a', 0) == 0);
    assert(crate::sounds::sutra_ending_in('k', 0) == 1);
    let set = crate::sounds::pratyahara_sounds('a', 'k', false);
    assert(crate::sounds::sound_or_long_at(0, 0, 'a'));
    assert(crate::sounds::sound_or_long_at(0, 0, 'A'));
    assert(set.contains('a') && set.contains('A'));
    assert(crate::sounds::word_sounds(crate::sounds::words(w)[0]).contains('a'));
    assert(crate::sounds::word_sounds(crate::sounds::words(w)[0]).contains('A'));
}

/// Whether `y`, a vowel after an `a`-vowel, has a substitute by 6.1.88 (where it is in `ec`)
/// or 6.1.87 (elsewhere).
pub open spec fn has_ad_guna_substitute(y: char) -> bool {
    if spec_s("ec"@).contains(y) {
        spec_to_vrddhi(y) is Some
    } else {
        spec_to_guna(y) is Some
    }
}

/// Whether no `a`-vowel of `t` is followed by a vowel that 6.1.87 or 6.1.88 can replace.
pub open spec fn no_ad_guna_left(t: Seq<char>) -> bool {
    forall|i: int|
        0 <= i && i + 1 < t.len() && spec_s("a"@).contains(#[trigger] t[i]) && spec_s(
            "ac"@,
        ).contains(t[i + 1]) ==> !has_ad_guna_substitute(t[i + 1])
}

proof fn lemma_last_rule_quiet<FF, OO, II>(f: FF, o: OO, inner: II, x: Prakriya) where
    FF: Fn(&mut Prakriya, &str, usize) -> bool,
    OO: Fn(&mut Prakriya, &str, usize) -> bool,
    II: Fn(char, char) -> bool,

    requires
        forall|q: &mut Prakriya, t: &str, i: usize, b: bool|
            #[trigger] call_ensures(f, (q, t, i), b) ==> if i + 1 < t@.len() {
                call_ensures(inner, (t@[i as int], t@[i + 1]), b)
            } else {
                !b
            },
        forall|x: char, y: char, b: bool|
            #[trigger] call_ensures(inner, (x, y), b) ==> b == (spec_s("a"@).contains(x) && spec_s(
                "ac"@,
            ).contains(y)),
        forall|q: &mut Prakriya, t: &str, i: usize, c: bool|
            #[trigger] call_ensures(o, (q, t, i), c) ==> (i + 1 < t@.len()
                && has_ad_guna_substitute(t@[i + 1]) ==> c),
        quiet_on(f, o, x),
    ensures
        no_ad_guna_left(concat_texts(x.terms_seq())),
{
    let (start, text) = choose|start: Prakriya, text: &str|
        #![trigger same_but_log(start, x), text@]
        same_but_log(start, x) && text@ == concat_texts(start.terms_seq()) && text@.len()
            <= usize::MAX && forall|i: usize|
            (i as int) < text@.len() ==> #[trigger] quiet_at(f, o, text, i, start);
    let t = text@;
    assert(t == concat_texts(x.terms_seq()));
    assert forall|i: int|
        0 <= i && i + 1 < t.len() && spec_s("a"@).contains(#[trigger] t[i]) && spec_s(
            "ac"@,
        ).contains(t[i + 1]) implies !has_ad_guna_substitute(t[i + 1]) by {
        let iu = i as usize;
        assert(quiet_at(f, o, text, iu, start));
        let (q, b) = choose|q: &mut Prakriya, b: bool|
            same_but_log(start, *q) && #[trigger] call_ensures(f, (q, text, iu), b) && (b ==> exists|
                q2: &mut Prakriya,
            | same_but_log(start, *q2) && #[trigger] call_ensures(o, (q2, text, iu), false));
        assert(call_ensures(f, (q, text, iu), b));
        assert(iu + 1 < text@.len());
        assert(call_ensures(inner, (text@[iu as int], text@[iu + 1]), b));
        assert(call_ensures(inner, (t[i], t[i + 1]), b));
        if b {
            let q2 = choose|q2: &mut Prakriya|
                same_but_log(start, *q2) && #[trigger] call_ensures(o, (q2, text, iu), false);
            assert(call_ensures(o, (q2, text, iu), false));
        }
    }
}

/// Whether one of the rules of `apply_general_ac_sandhi` reads the sounds `x` and `y`, in this
/// order: `v` or `y` before `val` (6.1.66), `a` before a guna vowel (6.1.97), `ec` before `ac`
/// (6.1.78), savarna sounds of `ak` (6.1.101), `ik` before `ac` (6.1.77) and an `a`-vowel before
/// `ac` (6.1.87, 6.1.88).
pub open spec fn vowel_sandhi_pair(x: char, y: char) -> bool {
    ||| (x == 'v' || x == 'y') && spec_s("val"@).contains(y)
    ||| x == 'a' && (y == 'a' || y == 'e' || y == 'o')
    ||| spec_s("ec"@).contains(x) && spec_s("ac"@).contains(y)
    ||| spec_s("ak"@).contains(x) && spec_s("ak"@).contains(y) && crate::sounds::spec_savarna(
        x,
    ).to_set().contains(y)
    ||| spec_s("ik"@).contains(x) && spec_s("ac"@).contains(y)
    ||| spec_s("a"@).contains(x) && spec_s("ac"@).contains(y)
}

/// Whether the sounds of `t` at `i` and `i + 1` are read by one of the rules of
/// `apply_general_ac_sandhi`.
pub open spec fn vowel_pair_at(t: Seq<char>, i: int) -> bool {
    0 <= i && i + 1 < t.len() && vowel_sandhi_pair(t[i], t[i + 1])
}

/// Whether no two neighboring sounds of `t` are read by a rule of `apply_general_ac_sandhi`.
pub open spec fn vowel_rules_idle(t: Seq<char>) -> bool {
    forall|i: int| !#[trigger] vowel_pair_at(t, i)
}

/// A rule whose filter applies `inner` to two neighboring sounds surely has nothing to do where
/// `inner` accepts only pairs that `vowel_sandhi_pair` reads and no such pair is left.
proof fn lemma_vowel_pairs_inert<FF, OO, II>(f: FF, o: OO, inner: II, x: Prakriya) where
    FF: Fn(&mut Prakriya, &str, usize) -> bool,
    OO: Fn(&mut Prakriya, &str, usize) -> bool,
    II: Fn(char, char) -> bool,

    requires
        forall|q: &mut Prakriya, t: &str, i: usize, b: bool|
            #[trigger] call_ensures(f, (q, t, i), b) ==> if i + 1 < t@.len() {
                call_ensures(inner, (t@[i as int], t@[i + 1]), b)
            } else {
                !b
            },
        forall|a: char, c: char, b: bool|
            #[trigger] call_ensures(inner, (a, c), b) && b ==> vowel_sandhi_pair(a, c),
        vowel_rules_idle(concat_texts(x.terms_seq())),
    ensures
        crate::char_view::inert_on(f, o, x),
{
    let t = concat_texts(x.terms_seq());
    assert forall|i: int, b: bool|
        0 <= i && i + 1 < t.len() && #[trigger] call_ensures(inner, (t[i], t[i + 1]), b) implies !b by {
        assert(!vowel_pair_at(t, i));
    }
    crate::char_view::lemma_xy_inert(f, o, inner, x);
}

/// The texts `xs` with sound `i` of their joined text dropped, as 6.1.66 and 6.1.97 do.
pub open spec fn drop_rewrite() -> crate::tripadi::SoundRewrite {
    |xs: Seq<Seq<char>>, i: int| Some(crate::char_view::set_sound(xs, i, Seq::empty()))
}

/// Whether 6.1.66 (lopo vyor vali) looks at sound `i` of the texts `xs` of terms shaped as
/// `ts`: `v` or `y` before a sound of `val`, in a term that is not a dhatu.
pub open spec fn vyor_vali_accepts(dhatus: Seq<bool>) -> crate::tripadi::SoundAccepts {
    |xs: Seq<Seq<char>>, i: int| {
        let t = crate::char_view::joined(xs);
        let k = crate::char_view::locate_text(xs, i, 0, 0).0;
        &&& 0 <= i && i + 1 < t.len()
        &&& (t[i] == 'v' || t[i] == 'y')
        &&& spec_s("val"@).contains(t[i + 1])
        &&& 0 <= k < dhatus.len()
        &&& !dhatus[k]
    }
}

/// Which of the terms `ts` are dhatus.
pub open spec fn dhatu_flags(ts: Seq<Term>) -> Seq<bool> {
    ts.map_values(|t: Term| t.tagged(T::Dhatu))
}

/// Terms of the same shape are dhatus in the same places.
proof fn lemma_dhatu_flags_shape(a: Prakriya, b: Prakriya)
    requires
        same_shape(a, b),
    ensures
        dhatu_flags(a.terms_seq()) == dhatu_flags(b.terms_seq()),
{
    assert forall|k: int| 0 <= k < a.terms_seq().len() implies #[trigger] dhatu_flags(a.terms_seq())[k]
        == dhatu_flags(b.terms_seq())[k] by {
        assert(same_but_text(a.terms_seq()[k], b.terms_seq()[k]));
    }
    assert(dhatu_flags(a.terms_seq()) =~= dhatu_flags(b.terms_seq()));
}

/// Where a rule on two neighboring sounds looks: sounds `i` and `i + 1` of the joined text of
/// `xs` meet `pair`.
pub open spec fn pair_accepts(pair: spec_fn(char, char) -> bool) -> crate::tripadi::SoundAccepts {
    |xs: Seq<Seq<char>>, i: int| {
        let t = crate::char_view::joined(xs);
        0 <= i && i + 1 < t.len() && pair(t[i], t[i + 1])
    }
}

/// The substitute of 6.1.78 (eco 'yavāyāvaḥ) for a sound of `ec`.
pub open spec fn ayavayav(x: char) -> Option<Seq<char>> {
    if x == 'e' {
        Some(seq!['a', 'y'])
    } else if x == 'E' {
        Some(seq!['A', 'y'])
    } else if x == 'o' {
        Some(seq!['a', 'v'])
    } else if x == 'O' {
        Some(seq!['A', 'v'])
    } else {
        None
    }
}

/// 6.1.78 replaces exactly the sounds of `ec` (e, E, o, O) before a vowel, each by a vowel and a
/// semivowel: the vowel is long `A` exactly when the replaced sound is its own vrddhi (E, O) and
/// short `a` when it is a guna vowel (e, o); the semivowel is the one that 6.1.77 puts for the
/// short counterpart of the replaced sound (`y` for e/E, whose counterpart is i; `v` for o/O).
pub proof fn lemma_ayavayav_keeps_length_and_class(x: char)
    ensures
        ayavayav(x) is Some <==> (x == 'e' || x == 'E' || x == 'o' || x == 'O'),
        ayavayav(x) is Some ==> {
            let s = ayavayav(x)->0;
            &&& s.len() == 2
            &&& s[0] == (if spec_to_vrddhi(x) == Some(seq![x]) {
                'A'
            } else {
                'a'
            })
            &&& yan(crate::sounds::spec_to_hrasva(x)->0) == Some(seq![s[1]])
        },
{
    if x == 'e' || x == 'o' {
        assert(spec_to_vrddhi(x) != Some(seq![x])) by {
            assert(spec_to_vrddhi(x)->0[0] != x);
        }
    }
    if x == 'E' || x == 'O' {
        assert(spec_to_vrddhi(x) == Some(seq![x]));
    }
}

/// The substitute of 6.1.77 (iko yaṇ aci) for a sound of `ik`.
pub open spec fn yan(x: char) -> Option<Seq<char>> {
    if x == 'i' || x == 'I' {
        Some(seq!['y'])
    } else if x == 'u' || x == 'U' {
        Some(seq!['v'])
    } else if x == 'f' || x == 'F' {
        Some(seq!['r'])
    } else if x == 'x' || x == 'X' {
        Some(seq!['l'])
    } else {
        None
    }
}

/// 6.1.77 replaces exactly the sounds of `ik` (i, u, f, x, short or long) before a vowel, each
/// by the semivowel of its class, whatever its length: the class at place `k` of i, u, f, x takes
/// the semivowel at place `k` of y, v, r, l.
pub proof fn lemma_yan_by_class(x: char)
    ensures
        yan(x) is Some <==> (crate::sounds::spec_is_ac(x) && crate::sounds::spec_to_hrasva(x)
            != Some('a') && x != 'e' && x != 'E' && x != 'o' && x != 'O'),
        yan(x) is Some ==> forall|k: int|
            0 <= k < 4 && crate::sounds::spec_to_hrasva(x) == Some(seq!['i', 'u', 'f', 'x'][k])
                ==> yan(x) == Some(seq![seq!['y', 'v', 'r', 'l'][k]]),
{
    assert forall|k: int|
        0 <= k < 4 && crate::sounds::spec_to_hrasva(x) == Some(seq!['i', 'u', 'f', 'x'][k]) && yan(x) is Some
            implies yan(x) == Some(seq![seq!['y', 'v', 'r', 'l'][k]]) by {
        assert(k == 0 || k == 1 || k == 2 || k == 3);
    }
}

/// 6.1.101 (akaḥ savarṇe dīrghaḥ) at sound `i`: it becomes long and the next sound goes.
pub open spec fn dirgha_rewrite() -> crate::tripadi::SoundRewrite {
    |xs: Seq<Seq<char>>, i: int| {
        let t = crate::char_view::joined(xs);
        if 0 <= i < t.len() && crate::sounds::spec_to_dirgha(t[i]) is Some {
            Some(
                crate::char_view::set_sound(
                    crate::char_view::set_sound(xs, i, seq![crate::sounds::spec_to_dirgha(t[i])->0]),
                    i + 1,
                    Seq::empty(),
                ),
            )
        } else {
            None
        }
    }
}

/// The substitute of 6.1.88 (vṛddhir eci) or 6.1.87 (ād guṇaḥ) for the vowel `y` after an
/// `a`-vowel.
pub open spec fn ad_guna_substitute(y: char) -> Option<Seq<char>> {
    if spec_s("ec"@).contains(y) {
        spec_to_vrddhi(y)
    } else {
        spec_to_guna(y)
    }
}

/// 6.1.87 and 6.1.88 at sound `i`: the next sound takes its substitute and sound `i` goes.
pub open spec fn ad_guna_rewrite() -> crate::tripadi::SoundRewrite {
    |xs: Seq<Seq<char>>, i: int| {
        let t = crate::char_view::joined(xs);
        if 0 <= i && i + 1 < t.len() && ad_guna_substitute(t[i + 1]) is Some {
            Some(
                crate::char_view::set_sound(
                    crate::char_view::set_sound(xs, i + 1, ad_guna_substitute(t[i + 1])->0),
                    i,
                    Seq::empty(),
                ),
            )
        } else {
            None
        }
    }
}

/// `settle` of a rule on texts that are there: `None` stays `None`.
pub open spec fn then_settle(
    xs: Option<Seq<Seq<char>>>,
    accepts: crate::tripadi::SoundAccepts,
    rewrite: crate::tripadi::SoundRewrite,
) -> Option<Seq<Seq<char>>> {
    match xs {
        None => None,
        Some(ys) => crate::char_view::settle(accepts, rewrite, ys, 10),
    }
}

/// Where 6.1.97 (ato guṇe) looks: `a` before a guna vowel.
pub open spec fn a_guna_accepts() -> crate::tripadi::SoundAccepts {
    pair_accepts(|x: char, y: char| x == 'a' && (y == 'a' || y == 'e' || y == 'o'))
}

/// Where 6.1.78 looks: a sound of `ec` before one of `ac`.
pub open spec fn ec_ac_accepts() -> crate::tripadi::SoundAccepts {
    pair_accepts(|x: char, y: char| spec_s("ec"@).contains(x) && spec_s("ac"@).contains(y))
}

/// Where 6.1.101 looks: two savarna sounds of `ak`.
pub open spec fn savarna_ak_accepts() -> crate::tripadi::SoundAccepts {
    pair_accepts(
        |x: char, y: char| spec_s("ak"@).contains(x) && spec_s("ak"@).contains(y)
            && crate::sounds::spec_savarna(x).to_set().contains(y),
    )
}

/// Where 6.1.77 looks: a sound of `ik` before one of `ac`.
pub open spec fn ik_ac_accepts() -> crate::tripadi::SoundAccepts {
    pair_accepts(|x: char, y: char| spec_s("ik"@).contains(x) && spec_s("ac"@).contains(y))
}

/// Where 6.1.87 and 6.1.88 look: an `a`-vowel before a sound of `ac`.
pub open spec fn a_ac_accepts() -> crate::tripadi::SoundAccepts {
    pair_accepts(|x: char, y: char| spec_s("a"@).contains(x) && spec_s("ac"@).contains(y))
}

/// What 6.1.78 puts.
pub open spec fn ayav_rewrite() -> crate::tripadi::SoundRewrite {
    |xs: Seq<Seq<char>>, i: int| {
        let t = crate::char_view::joined(xs);
        if 0 <= i < t.len() && ayavayav(t[i]) is Some {
            Some(crate::char_view::set_sound(xs, i, ayavayav(t[i])->0))
        } else {
            None
        }
    }
}

/// What 6.1.77 puts.
pub open spec fn yan_rewrite() -> crate::tripadi::SoundRewrite {
    |xs: Seq<Seq<char>>, i: int| {
        let t = crate::char_view::joined(xs);
        if 0 <= i < t.len() && yan(t[i]) is Some {
            Some(crate::char_view::set_sound(xs, i, yan(t[i])->0))
        } else {
            None
        }
    }
}

/// The texts of the terms `ts` after 6.1.66, 6.1.97, 6.1.78, 6.1.101, 6.1.77 and 6.1.87/88 in
/// turn, each applied pass after pass until it changes nothing; `None` where one of them does
/// not settle.
pub open spec fn general_ac_sandhi_texts(ts: Seq<Term>) -> Option<Seq<Seq<char>>> {
    general_ac_sandhi_of(dhatu_flags(ts), crate::char_view::term_texts(ts))
}

/// The texts `xs` of terms that are dhatus where `dhatus` says so, after the rules of
/// `general_ac_sandhi_texts`.
pub open spec fn general_ac_sandhi_of(dhatus: Seq<bool>, xs: Seq<Seq<char>>) -> Option<Seq<Seq<char>>> {
    let x1 = then_settle(Some(xs), vyor_vali_accepts(dhatus), drop_rewrite());
    let x2 = then_settle(x1, a_guna_accepts(), drop_rewrite());
    let x3 = then_settle(x2, ec_ac_accepts(), ayav_rewrite());
    let x4 = then_settle(x3, savarna_ak_accepts(), dirgha_rewrite());
    let x5 = then_settle(x4, ik_ac_accepts(), yan_rewrite());
    then_settle(x5, a_ac_accepts(), ad_guna_rewrite())
}

/// Whether `c` is `a` or `A`.
pub open spec fn is_a_vowel(c: char) -> bool {
    c == 'a' || c == 'A'
}

/// Whether no `a` or `A` of `t` stands right before a vowel.
pub open spec fn no_a_before_vowel(t: Seq<char>) -> bool {
    forall|i: int|
        0 <= i && i + 1 < t.len() && is_a_vowel(#[trigger] t[i]) ==> !crate::sounds::spec_is_ac(
            t[i + 1],
        )
}

/// Whether no `a` or `A` of `t` stands right before another.
pub open spec fn no_a_pair(t: Seq<char>) -> bool {
    forall|i: int| 0 <= i && i + 1 < t.len() && is_a_vowel(#[trigger] t[i]) ==> !is_a_vowel(t[i + 1])
}

/// The sounds of `a` are `a` and `A`.
proof fn lemma_a_sounds(c: char)
    ensures
        spec_s("a"@).contains(c) == is_a_vowel(c),
{
    reveal_strlit("a");
    let w = "a"@;
    assert(w == seq!['a']);
    lemma_one_word(w);
    let s = crate::sounds::spec_savarna('a');
    assert(crate::sounds::word_sounds(w) == s.to_set());
    assert(s[0] == 'a' && s[1] == 'A');
    if spec_s(w).contains(c) {
        let k = choose|k: int| 0 <= k < crate::sounds::words(w).len()
            && #[trigger] crate::sounds::word_sounds(crate::sounds::words(w)[k]).contains(c);
        assert(k == 0);
        assert(s.contains(c));
    }
    if is_a_vowel(c) {
        assert(s.contains(c));
        assert(crate::sounds::word_sounds(crate::sounds::words(w)[0]).contains(c));
    }
}

/// The sounds of `ec` are `e`, `o`, `E` and `O`.
proof fn lemma_ec_sounds(c: char)
    ensures
        spec_s("ec"@).contains(c) == (c == 'e' || c == 'o' || c == 'E' || c == 'O'),
{
    reveal_strlit("ec");
    let w = "ec"@;
    assert(w == seq!['e', 'c']);
    lemma_one_word(w);
    assert(crate::sounds::word_sounds(w) == crate::sounds::spec_pratyahara(w));
    reveal_with_fuel(crate::sounds::sutra_with, 4);
    reveal_with_fuel(crate::sounds::sutra_ending_in, 3);
    assert(crate::sounds::sutra_with('e', 0) == 2);
    assert(crate::sounds::index_from(crate::sounds::shiva_sutras()[2].0, 'e', 0) == 0);
    assert(crate::sounds::sutra_ending_in('c', 2) == 3);
    let set = crate::sounds::pratyahara_sounds('e', 'c', false);
    assert(spec_s(w) =~= set) by {
        assert forall|x: char| spec_s(w).contains(x) implies set.contains(x) by {
            let k = choose|k: int| 0 <= k < crate::sounds::words(w).len()
                && #[trigger] crate::sounds::word_sounds(crate::sounds::words(w)[k]).contains(x);
            assert(k == 0);
        }
        assert forall|x: char| set.contains(x) implies spec_s(w).contains(x) by {
            assert(crate::sounds::word_sounds(crate::sounds::words(w)[0]).contains(x));
        }
    }
    let ss = crate::sounds::shiva_sutras();
    if c == 'e' || c == 'o' || c == 'E' || c == 'O' {
        let (k, j): (int, int) = if c == 'e' {
            (2, 0)
        } else if c == 'o' {
            (2, 1)
        } else if c == 'E' {
            (3, 0)
        } else {
            (3, 1)
        };
        assert(crate::sounds::sound_or_long_at(k, j, c));
        assert(set.contains(c));
    } else {
        if set.contains(c) {
            let (k, j) = choose|k: int, j: int|
                2 <= k <= 3 && 0 <= j < ss[k].0.len() && (k > 2 || j >= 0)
                    && #[trigger] crate::sounds::sound_or_long_at(k, j, c);
            if k == 2 {
            } else {
            }
            assert(false);
        }
    }
}

/// A vowel other than `a` and `A` has a substitute by 6.1.87 or 6.1.88, and it ends in a sound
/// other than `a` and `A`, which is all that it holds but for a first `a` or `A`.
proof fn lemma_ad_guna_substitute(y: char)
    requires
        crate::sounds::spec_is_ac(y),
        !is_a_vowel(y),
    ensures
        ad_guna_substitute(y) is Some,
        1 <= (ad_guna_substitute(y)->0).len() <= 2,
        !is_a_vowel((ad_guna_substitute(y)->0).last()),
{
    lemma_ec_sounds(y);
}

/// 6.1.77 puts one consonant for a vowel: no `a` or `A` comes to stand before another.
proof fn lemma_yan_keeps_no_a_pair(ys: Seq<Seq<char>>, j: int)
    requires
        no_a_pair(crate::char_view::joined(ys)),
        0 <= j < crate::char_view::joined(ys).len(),
        (yan_rewrite())(ys, j) is Some,
    ensures
        no_a_pair(crate::char_view::joined((yan_rewrite())(ys, j)->0)),
{
    let t = crate::char_view::joined(ys);
    let sub = yan(t[j])->0;
    crate::char_view::lemma_set_sound_joined(ys, j, sub);
    let u = crate::char_view::joined((yan_rewrite())(ys, j)->0);
    assert(u =~= t.update(j, sub[0]));
    assert forall|i: int| 0 <= i && i + 1 < u.len() && is_a_vowel(#[trigger] u[i]) implies !is_a_vowel(
        u[i + 1],
    ) by {
        if i != j && i + 1 != j {
            assert(is_a_vowel(t[i]));
        }
    }
}

/// 6.1.87 and 6.1.88 put for an `a`-vowel and the vowel after it a substitute that ends in no
/// `a`-vowel: no `a` or `A` comes to stand before another.
proof fn lemma_ad_guna_keeps_no_a_pair(ys: Seq<Seq<char>>, j: int)
    requires
        no_a_pair(crate::char_view::joined(ys)),
        0 <= j < crate::char_view::joined(ys).len(),
        (a_ac_accepts())(ys, j),
        (ad_guna_rewrite())(ys, j) is Some,
    ensures
        no_a_pair(crate::char_view::joined((ad_guna_rewrite())(ys, j)->0)),
{
    let t = crate::char_view::joined(ys);
    lemma_a_sounds(t[j]);
    lemma_ac_is_vowels(t[j + 1]);
    assert(is_a_vowel(t[j]));
    assert(!is_a_vowel(t[j + 1]));
    lemma_ad_guna_substitute(t[j + 1]);
    let sub = ad_guna_substitute(t[j + 1])->0;
    let ys1 = crate::char_view::set_sound(ys, j + 1, sub);
    crate::char_view::lemma_set_sound_joined(ys, j + 1, sub);
    let t1 = crate::char_view::joined(ys1);
    assert(t1 =~= t.subrange(0, j + 1) + sub + t.subrange(j + 2, t.len() as int));
    crate::char_view::lemma_set_sound_joined(ys1, j, Seq::empty());
    let u = crate::char_view::joined((ad_guna_rewrite())(ys, j)->0);
    assert(u =~= t.subrange(0, j) + sub + t.subrange(j + 2, t.len() as int));
    let n = sub.len() as int;
    assert forall|i: int| 0 <= i && i + 1 < u.len() && is_a_vowel(#[trigger] u[i]) implies !is_a_vowel(
        u[i + 1],
    ) by {
        if i + 1 < j {
            assert(u[i] == t[i] && u[i + 1] == t[i + 1]);
        } else if i + 1 == j {
            assert(u[i] == t[i]);
        } else if i + 1 < j + n {
            assert(u[i + 1] == sub[i + 1 - j]);
            assert(n == 2 && i == j);
            assert(sub[1] == sub.last());
        } else if i + 1 == j + n {
            assert(u[i] == sub[n - 1]);
        } else {
            assert(u[i] == t[i - n + 2] && u[i + 1] == t[i - n + 3]);
        }
    }
}

/// Where the rules of `general_ac_sandhi_of` settle, no `a` or `A` is left before a vowel:
/// 6.1.101 leaves no two `a`-vowels side by side, 6.1.77 and 6.1.87 / 6.1.88 bring none
/// together, and 6.1.87 / 6.1.88 replace each `a`-vowel that stands before another vowel.
pub proof fn lemma_general_ac_sandhi_no_a_before_vowel(dhatus: Seq<bool>, xs: Seq<Seq<char>>)
    ensures
        general_ac_sandhi_of(dhatus, xs) is Some ==> no_a_before_vowel(
            crate::char_view::joined(general_ac_sandhi_of(dhatus, xs)->0),
        ),
{
    let x1 = then_settle(Some(xs), vyor_vali_accepts(dhatus), drop_rewrite());
    let x2 = then_settle(x1, a_guna_accepts(), drop_rewrite());
    let x3 = then_settle(x2, ec_ac_accepts(), ayav_rewrite());
    let x4 = then_settle(x3, savarna_ak_accepts(), dirgha_rewrite());
    let x5 = then_settle(x4, ik_ac_accepts(), yan_rewrite());
    let x6 = then_settle(x5, a_ac_accepts(), ad_guna_rewrite());
    if x6 is Some {
        let y4 = x4->0;
        crate::char_view::lemma_settled(savarna_ak_accepts(), dirgha_rewrite(), x3->0, 10);
        let t4 = crate::char_view::joined(y4);
        assert forall|i: int| 0 <= i && i + 1 < t4.len() && is_a_vowel(#[trigger] t4[i]) implies !is_a_vowel(
            t4[i + 1],
        ) by {
            if is_a_vowel(t4[i + 1]) {
                lemma_a_in_ak();
                let s = crate::sounds::spec_savarna(t4[i]);
                assert(s[0] == 'a' && s[1] == 'A');
                assert(s.contains(t4[i + 1]));
                assert((savarna_ak_accepts())(y4, i));
                assert((dirgha_rewrite())(y4, i) is Some);
            }
        }
        let inv = |ys: Seq<Seq<char>>| no_a_pair(crate::char_view::joined(ys));
        assert forall|ys: Seq<Seq<char>>, j: int|
            inv(ys) && 0 <= j < crate::char_view::joined(ys).len() && (ik_ac_accepts())(ys, j)
                && #[trigger] (yan_rewrite())(ys, j) is Some implies inv((yan_rewrite())(ys, j)->0) by {
            lemma_yan_keeps_no_a_pair(ys, j);
        }
        crate::char_view::lemma_settle_keeps(ik_ac_accepts(), yan_rewrite(), inv, y4, 10);
        let y5 = x5->0;
        assert forall|ys: Seq<Seq<char>>, j: int|
            inv(ys) && 0 <= j < crate::char_view::joined(ys).len() && (a_ac_accepts())(ys, j)
                && #[trigger] (ad_guna_rewrite())(ys, j) is Some implies inv(
                (ad_guna_rewrite())(ys, j)->0,
            ) by {
            lemma_ad_guna_keeps_no_a_pair(ys, j);
        }
        crate::char_view::lemma_settle_keeps(a_ac_accepts(), ad_guna_rewrite(), inv, y5, 10);
        crate::char_view::lemma_settled(a_ac_accepts(), ad_guna_rewrite(), y5, 10);
        let y6 = x6->0;
        let t6 = crate::char_view::joined(y6);
        assert forall|i: int| 0 <= i && i + 1 < t6.len() && is_a_vowel(#[trigger] t6[i]) implies !crate::sounds::spec_is_ac(
            t6[i + 1],
        ) by {
            if crate::sounds::spec_is_ac(t6[i + 1]) {
                lemma_a_sounds(t6[i]);
                lemma_ac_is_vowels(t6[i + 1]);
                assert((a_ac_accepts())(y6, i));
                assert(!is_a_vowel(t6[i + 1]));
                lemma_ad_guna_substitute(t6[i + 1]);
                assert((ad_guna_rewrite())(y6, i) is Some);
            }
        }
    }
}

/// Runs various general rules of vowel sandhi, each until it finds nothing more to change:
/// 6.1.66, 6.1.97, 6.1.78, 6.1.101, 6.1.77 and 6.1.87 / 6.1.88. Returns whether each rule
/// settled; where one keeps changing the text, it stops there and returns false.
#[verifier::spinoff_prover]
#[verifier::rlimit(40)]
fn apply_general_ac_sandhi(p: &mut Prakriya) -> (done: bool)
    ensures
        same_shape(*old(p), *final(p)),
        done ==> no_ad_guna_left(concat_texts(final(p).terms_seq())),
        done ==> no_a_before_vowel(concat_texts(final(p).terms_seq())),
        vowel_rules_idle(concat_texts(old(p).terms_seq())) ==> done && final(p).terms_seq()
            == old(p).terms_seq(),
        done == general_ac_sandhi_texts(old(p).terms_seq()) is Some,
        final(p).decisions() == old(p).decisions(),
        done ==> crate::char_view::term_texts(final(p).terms_seq()) == general_ac_sandhi_texts(
            old(p).terms_seq(),
        )->0 && final(p).cfg() == old(p).cfg(),
{
    proof {
        lemma_sound_lists();
    }
    let a = sounds::s("a");
    let ak = sounds::s("ak");
    let ik = sounds::s("ik");
    let ac = sounds::s("ac");
    let ec = sounds::s("ec");
    let val = sounds::s("val");
    let ghost p0 = *p;
    let ghost idle = vowel_rules_idle(concat_texts(p.terms_seq()));

    let f = |p: &mut Prakriya, text: &str, i: usize| -> (b: bool)
        ensures
            *final(p) == *old(p),
            b ==> vowel_pair_at(text@, i as int),
            text@ == concat_texts(old(p).terms_seq()) && (i as int) < text@.len() ==> b == (
            vyor_vali_accepts(dhatu_flags(old(p).terms_seq())))(
                crate::char_view::term_texts(old(p).terms_seq()),
                i as int,
            ),
        {
            proof {
                crate::char_view::lemma_joined(p.terms_seq());
                crate::char_view::lemma_locate_text(p.terms_seq(), i as int, 0, 0);
                crate::char_view::lemma_locate_text_range(
                    crate::char_view::term_texts(p.terms_seq()),
                    i as int,
                    0,
                    0,
                );
            }
            let n = text.unicode_len();
            if i < n && n - i > 1 {
                let x = text.get_char(i);
                let y = text.get_char(i + 1);
                let vyor_vali = (x == 'v' || x == 'y') && val.contains_char(y);
                // Ignore if it starts an upadesha, otherwise roots like "vraj" would by vyartha.
                // Likewise for roots ending with 'v'. For now, just check if the term is a dhatu.
                match get_at(p, i) {
                    Some(t) => vyor_vali && !t.has_tag(T::Dhatu),
                    None => false,
                }
            } else {
                false
            }
        };
    let o = |p: &mut Prakriya, text: &str, i: usize| -> (c: bool)
        ensures
            same_shape(*old(p), *final(p)),
            final(p).decisions() == old(p).decisions(),
            c,
            text@ == concat_texts(old(p).terms_seq()) && (i as int) < text@.len() ==> (c == (drop_rewrite())(
                crate::char_view::term_texts(old(p).terms_seq()),
                i as int,
            ) is Some) && (c ==> final(p).cfg() == old(p).cfg() && final(p).tag_set() == old(p).tag_set()
                && crate::char_view::term_texts(final(p).terms_seq()) == (drop_rewrite())(
                crate::char_view::term_texts(old(p).terms_seq()),
                i as int,
            )->0),
        {
            proof {
                crate::char_view::lemma_joined(p.terms_seq());
                reveal_strlit("");
            }
            set_at(p, i, "");
            p.step("6.1.66");
            true
        };
    proof {
        if idle {
            crate::char_view::lemma_cond_inert(f, o, |t: Seq<char>, i: int| vowel_pair_at(t, i), *p);
        }
    }
    let ghost x1 = *p;
    proof {
        assert forall|q: &mut Prakriya, t: &str, i: usize, b: bool|
            #[trigger] call_ensures(f, (q, t, i), b) && same_shape(x1, *q) && q.cfg() == x1.cfg()
                && t@ == concat_texts(q.terms_seq()) && (i as int) < t@.len() implies same_but_log(
            *q,
            *final(q),
        ) && b == (vyor_vali_accepts(dhatu_flags(p0.terms_seq())))(crate::char_view::term_texts(q.terms_seq()), i as int) by {
            crate::char_view::lemma_joined(q.terms_seq());
            let xs = crate::char_view::term_texts(q.terms_seq());
            crate::char_view::lemma_locate_text_range(xs, i as int, 0, 0);
            let k = crate::char_view::locate_text(xs, i as int, 0, 0).0;
            lemma_dhatu_flags_shape(x1, *q);
        }
        assert forall|q: &mut Prakriya, t: &str, i: usize, c: bool|
            #[trigger] call_ensures(o, (q, t, i), c) && same_shape(x1, *q) && q.cfg() == x1.cfg()
                && t@ == concat_texts(q.terms_seq()) && (i as int) < t@.len() implies (c == (drop_rewrite())(
            crate::char_view::term_texts(q.terms_seq()),
            i as int,
        ) is Some) && (c ==> same_shape(*q, *final(q)) && final(q).cfg() == q.cfg()
            && final(q).tag_set() == q.tag_set() && crate::char_view::term_texts(final(q).terms_seq())
            == (drop_rewrite())(crate::char_view::term_texts(q.terms_seq()), i as int)->0) && (!c
            ==> same_but_log(*q, *final(q))) by {}
    }
    let r1 = char_rule(p, f, o);
    proof {
        assert(crate::char_view::settle(vyor_vali_accepts(dhatu_flags(p0.terms_seq())), drop_rewrite(), crate::char_view::term_texts(x1.terms_seq()), 10)
            == crate::char_view::settle(vyor_vali_accepts(dhatu_flags(p0.terms_seq())), drop_rewrite(), crate::char_view::term_texts(x1.terms_seq()), 10));
    }
    if !r1 {
        return false;
    }
    let ghost p1 = *p;
    let o = |p: &mut Prakriya, text: &str, i: usize| -> (c: bool)
        ensures
            same_shape(*old(p), *final(p)),
            final(p).decisions() == old(p).decisions(),
            c,
            text@ == concat_texts(old(p).terms_seq()) && (i as int) < text@.len() ==> (c == (drop_rewrite())(
                crate::char_view::term_texts(old(p).terms_seq()),
                i as int,
            ) is Some) && (c ==> final(p).cfg() == old(p).cfg() && final(p).tag_set() == old(p).tag_set()
                && crate::char_view::term_texts(final(p).terms_seq()) == (drop_rewrite())(
                crate::char_view::term_texts(old(p).terms_seq()),
                i as int,
            )->0),
        {
            proof {
                crate::char_view::lemma_joined(p.terms_seq());
                reveal_strlit("");
            }
            set_at(p, i, "");
            p.step("6.1.97");
            true
        };
    let inner = |x: char, y: char| -> (b: bool)
        ensures
            b == (x == 'a' && (y == 'a' || y == 'e' || y == 'o')),
        { x == 'a' && sounds::is_guna(y) };
    let f = xy(inner);
    proof {
        if idle {
            assert(p.terms_seq() == p0.terms_seq());
            lemma_vowel_pairs_inert(f, o, inner, *p);
        }
    }
    let ghost x2 = *p;
    proof {
        assert forall|q: &mut Prakriya, t: &str, i: usize, b: bool|
            #[trigger] call_ensures(f, (q, t, i), b) && same_shape(x2, *q) && q.cfg() == x2.cfg()
                && t@ == concat_texts(q.terms_seq()) && (i as int) < t@.len() implies same_but_log(
            *q,
            *final(q),
        ) && b == (a_guna_accepts())(crate::char_view::term_texts(q.terms_seq()), i as int) by {
            crate::char_view::lemma_joined(q.terms_seq());
            if i + 1 < t@.len() {
                assert(call_ensures(inner, (t@[i as int], t@[i + 1]), b));
            }
        }
        assert forall|q: &mut Prakriya, t: &str, i: usize, c: bool|
            #[trigger] call_ensures(o, (q, t, i), c) && same_shape(x2, *q) && q.cfg() == x2.cfg()
                && t@ == concat_texts(q.terms_seq()) && (i as int) < t@.len() implies (c == (drop_rewrite())(
            crate::char_view::term_texts(q.terms_seq()),
            i as int,
        ) is Some) && (c ==> same_shape(*q, *final(q)) && final(q).cfg() == q.cfg()
            && final(q).tag_set() == q.tag_set() && crate::char_view::term_texts(final(q).terms_seq())
            == (drop_rewrite())(crate::char_view::term_texts(q.terms_seq()), i as int)->0) && (!c
            ==> same_but_log(*q, *final(q))) by {}
    }
    let r2 = char_rule(p, f, o);
    proof {
        assert(crate::char_view::settle(a_guna_accepts(), drop_rewrite(), crate::char_view::term_texts(x2.terms_seq()), 10)
            == crate::char_view::settle(a_guna_accepts(), drop_rewrite(), crate::char_view::term_texts(x2.terms_seq()), 10));
    }
    if !r2 {
        return false;
    }
    let ghost p2 = *p;
    let o = |p: &mut Prakriya, text: &str, i: usize| -> (c: bool)
        ensures
            same_shape(*old(p), *final(p)),
            final(p).decisions() == old(p).decisions(),
            !c ==> *final(p) == *old(p),
            text@ == concat_texts(old(p).terms_seq()) && (i as int) < text@.len() ==> (c == (ayav_rewrite())(
                crate::char_view::term_texts(old(p).terms_seq()),
                i as int,
            ) is Some) && (c ==> final(p).cfg() == old(p).cfg() && final(p).tag_set() == old(p).tag_set()
                && crate::char_view::term_texts(final(p).terms_seq()) == (ayav_rewrite())(
                crate::char_view::term_texts(old(p).terms_seq()),
                i as int,
            )->0),
        {
            proof {
                crate::char_view::lemma_joined(p.terms_seq());
                reveal_strlit("ay");
                reveal_strlit("Ay");
                reveal_strlit("av");
                reveal_strlit("Av");
            }
            let n = text.unicode_len();
            if i >= n {
                return false;
            }
            let x = text.get_char(i);
            let sub = match x {
                'e' => "ay",
                'E' => "Ay",
                'o' => "av",
                'O' => "Av",
                _ => {
                    return false;
                },
            };
            assert(sub@ == ayavayav(x)->0 && ayavayav(x) is Some);
            set_at(p, i, sub);
            p.step("6.1.78");
            true
        };
    let inner = |x: char, y: char| -> (b: bool)
        ensures
            b == (ec@.contains(x) && ac@.contains(y)),
        { ec.contains_char(x) && ac.contains_char(y) };
    let f = xy(inner);
    proof {
        if idle {
            assert(p.terms_seq() == p0.terms_seq());
            lemma_vowel_pairs_inert(f, o, inner, *p);
        }
    }
    let ghost x3 = *p;
    proof {
        assert forall|q: &mut Prakriya, t: &str, i: usize, b: bool|
            #[trigger] call_ensures(f, (q, t, i), b) && same_shape(x3, *q) && q.cfg() == x3.cfg()
                && t@ == concat_texts(q.terms_seq()) && (i as int) < t@.len() implies same_but_log(
            *q,
            *final(q),
        ) && b == (ec_ac_accepts())(crate::char_view::term_texts(q.terms_seq()), i as int) by {
            crate::char_view::lemma_joined(q.terms_seq());
            if i + 1 < t@.len() {
                assert(call_ensures(inner, (t@[i as int], t@[i + 1]), b));
            }
        }
        assert forall|q: &mut Prakriya, t: &str, i: usize, c: bool|
            #[trigger] call_ensures(o, (q, t, i), c) && same_shape(x3, *q) && q.cfg() == x3.cfg()
                && t@ == concat_texts(q.terms_seq()) && (i as int) < t@.len() implies (c == (ayav_rewrite())(
            crate::char_view::term_texts(q.terms_seq()),
            i as int,
        ) is Some) && (c ==> same_shape(*q, *final(q)) && final(q).cfg() == q.cfg()
            && final(q).tag_set() == q.tag_set() && crate::char_view::term_texts(final(q).terms_seq())
            == (ayav_rewrite())(crate::char_view::term_texts(q.terms_seq()), i as int)->0) && (!c
            ==> same_but_log(*q, *final(q))) by {}
    }
    let r3 = char_rule(p, f, o);
    proof {
        assert(crate::char_view::settle(ec_ac_accepts(), ayav_rewrite(), crate::char_view::term_texts(x3.terms_seq()), 10)
            == crate::char_view::settle(ec_ac_accepts(), ayav_rewrite(), crate::char_view::term_texts(x3.terms_seq()), 10));
    }
    if !r3 {
        return false;
    }
    let ghost p3 = *p;
    let o = |p: &mut Prakriya, text: &str, i: usize| -> (c: bool)
        ensures
            same_shape(*old(p), *final(p)),
            final(p).decisions() == old(p).decisions(),
            !c ==> *final(p) == *old(p),
            text@ == concat_texts(old(p).terms_seq()) && (i as int) < text@.len() ==> (c == (dirgha_rewrite())(
                crate::char_view::term_texts(old(p).terms_seq()),
                i as int,
            ) is Some) && (c ==> final(p).cfg() == old(p).cfg() && final(p).tag_set() == old(p).tag_set()
                && crate::char_view::term_texts(final(p).terms_seq()) == (dirgha_rewrite())(
                crate::char_view::term_texts(old(p).terms_seq()),
                i as int,
            )->0),
        {
            proof {
                crate::char_view::lemma_joined(p.terms_seq());
                reveal_strlit("");
            }
            let n = text.unicode_len();
            if i >= n {
                return false;
            }
            let x = text.get_char(i);
            match sounds::to_dirgha(x) {
                Some(d) => {
                    let sub = strings::char_string(d);
                    set_at(p, i, sub.as_str());
                    set_at(p, i + 1, "");
                    p.step("6.1.101");
                    true
                },
                None => false,
            }
        };
    let inner = |x: char, y: char| -> (b: bool)
        ensures
            b == (ak@.contains(x) && ak@.contains(y) && crate::sounds::spec_savarna(x).to_set().contains(y)),
        { ak.contains_char(x) && ak.contains_char(y) && sounds::savarna(x).contains_char(y) };
    let f = xy(inner);
    proof {
        if idle {
            assert(p.terms_seq() == p0.terms_seq());
            lemma_vowel_pairs_inert(f, o, inner, *p);
        }
    }
    let ghost x4 = *p;
    proof {
        assert forall|q: &mut Prakriya, t: &str, i: usize, b: bool|
            #[trigger] call_ensures(f, (q, t, i), b) && same_shape(x4, *q) && q.cfg() == x4.cfg()
                && t@ == concat_texts(q.terms_seq()) && (i as int) < t@.len() implies same_but_log(
            *q,
            *final(q),
        ) && b == (savarna_ak_accepts())(crate::char_view::term_texts(q.terms_seq()), i as int) by {
            crate::char_view::lemma_joined(q.terms_seq());
            if i + 1 < t@.len() {
                assert(call_ensures(inner, (t@[i as int], t@[i + 1]), b));
            }
        }
        assert forall|q: &mut Prakriya, t: &str, i: usize, c: bool|
            #[trigger] call_ensures(o, (q, t, i), c) && same_shape(x4, *q) && q.cfg() == x4.cfg()
                && t@ == concat_texts(q.terms_seq()) && (i as int) < t@.len() implies (c == (dirgha_rewrite())(
            crate::char_view::term_texts(q.terms_seq()),
            i as int,
        ) is Some) && (c ==> same_shape(*q, *final(q)) && final(q).cfg() == q.cfg()
            && final(q).tag_set() == q.tag_set() && crate::char_view::term_texts(final(q).terms_seq())
            == (dirgha_rewrite())(crate::char_view::term_texts(q.terms_seq()), i as int)->0) && (!c
            ==> same_but_log(*q, *final(q))) by {}
    }
    let r4 = char_rule(p, f, o);
    proof {
        assert(crate::char_view::settle(savarna_ak_accepts(), dirgha_rewrite(), crate::char_view::term_texts(x4.terms_seq()), 10)
            == crate::char_view::settle(savarna_ak_accepts(), dirgha_rewrite(), crate::char_view::term_texts(x4.terms_seq()), 10));
    }
    if !r4 {
        return false;
    }
    let ghost p4 = *p;
    let o = |p: &mut Prakriya, text: &str, i: usize| -> (c: bool)
        ensures
            same_shape(*old(p), *final(p)),
            final(p).decisions() == old(p).decisions(),
            !c ==> *final(p) == *old(p),
            text@ == concat_texts(old(p).terms_seq()) && (i as int) < text@.len() ==> (c == (yan_rewrite())(
                crate::char_view::term_texts(old(p).terms_seq()),
                i as int,
            ) is Some) && (c ==> final(p).cfg() == old(p).cfg() && final(p).tag_set() == old(p).tag_set()
                && crate::char_view::term_texts(final(p).terms_seq()) == (yan_rewrite())(
                crate::char_view::term_texts(old(p).terms_seq()),
                i as int,
            )->0),
        {
            proof {
                crate::char_view::lemma_joined(p.terms_seq());
                reveal_strlit("y");
                reveal_strlit("v");
                reveal_strlit("r");
                reveal_strlit("l");
            }
            let n = text.unicode_len();
            if i >= n {
                return false;
            }
            let x = text.get_char(i);
            let res = match x {
                'i' | 'I' => "y",
                'u' | 'U' => "v",
                'f' | 'F' => "r",
                'x' | 'X' => "l",
                _ => {
                    return false;
                },
            };
            assert(res@ == yan(x)->0 && yan(x) is Some);
            set_at(p, i, res);
            p.step("6.1.77");
            true
        };
    let inner = |x: char, y: char| -> (b: bool)
        ensures
            b == (ik@.contains(x) && ac@.contains(y)),
        { ik.contains_char(x) && ac.contains_char(y) };
    let f = xy(inner);
    proof {
        if idle {
            assert(p.terms_seq() == p0.terms_seq());
            lemma_vowel_pairs_inert(f, o, inner, *p);
        }
    }
    let ghost x5 = *p;
    proof {
        assert forall|q: &mut Prakriya, t: &str, i: usize, b: bool|
            #[trigger] call_ensures(f, (q, t, i), b) && same_shape(x5, *q) && q.cfg() == x5.cfg()
                && t@ == concat_texts(q.terms_seq()) && (i as int) < t@.len() implies same_but_log(
            *q,
            *final(q),
        ) && b == (ik_ac_accepts())(crate::char_view::term_texts(q.terms_seq()), i as int) by {
            crate::char_view::lemma_joined(q.terms_seq());
            if i + 1 < t@.len() {
                assert(call_ensures(inner, (t@[i as int], t@[i + 1]), b));
            }
        }
        assert forall|q: &mut Prakriya, t: &str, i: usize, c: bool|
            #[trigger] call_ensures(o, (q, t, i), c) && same_shape(x5, *q) && q.cfg() == x5.cfg()
                && t@ == concat_texts(q.terms_seq()) && (i as int) < t@.len() implies (c == (yan_rewrite())(
            crate::char_view::term_texts(q.terms_seq()),
            i as int,
        ) is Some) && (c ==> same_shape(*q, *final(q)) && final(q).cfg() == q.cfg()
            && final(q).tag_set() == q.tag_set() && crate::char_view::term_texts(final(q).terms_seq())
            == (yan_rewrite())(crate::char_view::term_texts(q.terms_seq()), i as int)->0) && (!c
            ==> same_but_log(*q, *final(q))) by {}
    }
    let r5 = char_rule(p, f, o);
    proof {
        assert(crate::char_view::settle(ik_ac_accepts(), yan_rewrite(), crate::char_view::term_texts(x5.terms_seq()), 10)
            == crate::char_view::settle(ik_ac_accepts(), yan_rewrite(), crate::char_view::term_texts(x5.terms_seq()), 10));
    }
    if !r5 {
        return false;
    }
    let ghost p5 = *p;
    let inner = |x: char, y: char| -> (b: bool)
        ensures
            b == (a@.contains(x) && ac@.contains(y)),
        { a.contains_char(x) && ac.contains_char(y) };
    let o = |p: &mut Prakriya, text: &str, i: usize| -> (c: bool)
        ensures
            same_shape(*old(p), *final(p)),
            final(p).decisions() == old(p).decisions(),
            !c ==> *final(p) == *old(p),
            i + 1 < text@.len() && (if ec@.contains(text@[i + 1]) {
                spec_to_vrddhi(text@[i + 1]) is Some
            } else {
                spec_to_guna(text@[i + 1]) is Some
            }) ==> c,
            text@ == concat_texts(old(p).terms_seq()) && (i as int) < text@.len() ==> (c == (ad_guna_rewrite())(
                crate::char_view::term_texts(old(p).terms_seq()),
                i as int,
            ) is Some) && (c ==> final(p).cfg() == old(p).cfg() && final(p).tag_set() == old(p).tag_set()
                && crate::char_view::term_texts(final(p).terms_seq()) == (ad_guna_rewrite())(
                crate::char_view::term_texts(old(p).terms_seq()),
                i as int,
            )->0),
        {
            proof {
                crate::char_view::lemma_joined(p.terms_seq());
                reveal_strlit("");
            }
            let n = text.unicode_len();
            if !(i < n && n - i > 1) {
                return false;
            }
            let j = i + 1;
            let y = text.get_char(j);
            if ec.contains_char(y) {
                match sounds::to_vrddhi(y) {
                    Some(sub) => {
                        set_at(p, j, sub);
                        set_at(p, i, "");
                        p.step("6.1.88");
                    },
                    None => {
                        return false;
                    },
                }
            } else {
                match sounds::to_guna(y) {
                    Some(sub) => {
                        set_at(p, j, sub);
                        set_at(p, i, "");
                        p.step("6.1.87");
                    },
                    None => {
                        return false;
                    },
                }
            }
            true
        };
    let f = xy(inner);
    proof {
        if idle {
            assert(p.terms_seq() == p0.terms_seq());
            lemma_vowel_pairs_inert(f, o, inner, *p);
        }
    }
    let ghost x6 = *p;
    proof {
        assert forall|q: &mut Prakriya, t: &str, i: usize, b: bool|
            #[trigger] call_ensures(f, (q, t, i), b) && same_shape(x6, *q) && q.cfg() == x6.cfg()
                && t@ == concat_texts(q.terms_seq()) && (i as int) < t@.len() implies same_but_log(
            *q,
            *final(q),
        ) && b == (a_ac_accepts())(crate::char_view::term_texts(q.terms_seq()), i as int) by {
            crate::char_view::lemma_joined(q.terms_seq());
            if i + 1 < t@.len() {
                assert(call_ensures(inner, (t@[i as int], t@[i + 1]), b));
            }
        }
        assert forall|q: &mut Prakriya, t: &str, i: usize, c: bool|
            #[trigger] call_ensures(o, (q, t, i), c) && same_shape(x6, *q) && q.cfg() == x6.cfg()
                && t@ == concat_texts(q.terms_seq()) && (i as int) < t@.len() implies (c == (ad_guna_rewrite())(
            crate::char_view::term_texts(q.terms_seq()),
            i as int,
        ) is Some) && (c ==> same_shape(*q, *final(q)) && final(q).cfg() == q.cfg()
            && final(q).tag_set() == q.tag_set() && crate::char_view::term_texts(final(q).terms_seq())
            == (ad_guna_rewrite())(crate::char_view::term_texts(q.terms_seq()), i as int)->0) && (!c
            ==> same_but_log(*q, *final(q))) by {}
    }
    let done = char_rule(p, f, o);
    proof {
        assert(crate::char_view::settle(a_ac_accepts(), ad_guna_rewrite(), crate::char_view::term_texts(x6.terms_seq()), 10)
            == crate::char_view::settle(a_ac_accepts(), ad_guna_rewrite(), crate::char_view::term_texts(x6.terms_seq()), 10));
    }

    proof {
        if done {
            lemma_last_rule_quiet(f, o, inner, *p);
            lemma_general_ac_sandhi_no_a_before_vowel(
                dhatu_flags(p0.terms_seq()),
                crate::char_view::term_texts(p0.terms_seq()),
            );
            crate::char_view::lemma_joined(p.terms_seq());
        }
    }
    done
}

/// Whether the last term of `ts` is a sup that follows a term: the case of 6.1.93.
pub open spec fn ends_in_sup(ts: Seq<Term>) -> bool {
    ts.len() >= 2 && ts.last().tagged(T::Sup)
}

/// Whether 6.1.93 (auto 'mśasoḥ) applies to `ts`, which ends in a sup after a term.
pub open spec fn sup_sandhi_applies(ts: Seq<Term>) -> bool {
    let x = ts[ts.len() - 2];
    let y = ts.last();
    (x.text@.len() > 0 && x.text@.last() == 'o') || y.u_is("am"@) || y.u_is("Sas"@)
}

/// Whether `b` is `a` after `sup_sandhi_before_angasya`: where 6.1.93 applies, the last sound
/// of the stem becomes `A`, the first sound of the sup is dropped and the step is recorded;
/// elsewhere nothing changes.
pub open spec fn sup_sandhi_result(a: Prakriya, b: Prakriya) -> bool {
    if ends_in_sup(a.terms_seq()) && sup_sandhi_applies(a.terms_seq()) {
        let ts = a.terms_seq();
        let us = b.terms_seq();
        let y = ts.len() - 1;
        &&& us.len() == ts.len()
        &&& forall|j: int| 0 <= j < ts.len() && j != y - 1 && j != y ==> us[j] == ts[j]
        &&& same_but_text(ts[y - 1], us[y - 1])
        &&& us[y - 1].text@ == replace_antya(ts[y - 1].text@, "A"@)
        &&& same_but_text(ts[y], us[y])
        &&& us[y].text@ == replace_adi(ts[y].text@, ""@)
        &&& Prakriya::logged(a.steps(), b.steps(), a.cfg().log_steps, "6.1.93", us)
        &&& b.tag_set() == a.tag_set()
        &&& b.cfg() == a.cfg()
        &&& b.decisions() == a.decisions()
    } else {
        b == a
    }
}

fn ends_in_o(t: &Term) -> (b: bool)
    ensures
        b == (t.text@.len() > 0 && t.text@.last() == 'o'),
{
    t.has_antya('o')
}

fn is_am_or_shas(t: &Term) -> (b: bool)
    ensures
        b == (t.u_is("am"@) || t.u_is("Sas"@)),
{
    t.has_u("am") || t.has_u("Sas")
}

fn is_not_sup(t: &Term) -> (b: bool)
    ensures
        b == !t.tagged(T::Sup),
{
    !t.has_tag(T::Sup)
}

/// Applies 6.1.93 between a stem and its sup, before the rules of the anga.
fn sup_sandhi_before_angasya(p: &mut Prakriya)
    requires
        old(p).terms_seq().len() >= 1,
        old(p).terms_seq().len() == 1 ==> !old(p).terms_seq()[0].tagged(T::Sup),
    ensures
        sup_sandhi_result(*old(p), *final(p)),
        same_shape(*old(p), *final(p)),
        Prakriya::rewrote(*old(p), *final(p)),
{
    proof {
        crate::prakriya::lemma_rewrote_refl(*p);
    }
    let y = p.terms().len() - 1;
    if p.has(y, is_not_sup) {
        return;
    }
    let x = y - 1;
    if p.has(x, ends_in_o) || p.has(y, is_am_or_shas) {
        let to_a = |t: &mut Term|
            ensures
                final(t).text@ == replace_antya(old(t).text@, "A"@),
                same_but_text(*old(t), *final(t)),
            {
                crate::operations::antya(t, "A");
            };
        let drop_adi = |t: &mut Term|
            ensures
                final(t).text@ == replace_adi(old(t).text@, ""@),
                same_but_text(*old(t), *final(t)),
            {
                crate::operations::adi(t, "");
            };
        p.set(x, to_a);
        p.set(y, drop_adi);
        p.step("6.1.93");
    }
}

/// Rules of sup sandhi after the rules of the anga; none is applied yet.
fn sup_sandhi_after_angasya(p: &mut Prakriya)
    ensures
        *final(p) == *old(p),
{
}

fn not_empty(t: &Term) -> (b: bool)
    ensures
        b == (t.text@.len() > 0),
{
    t.text.as_str().unicode_len() > 0
}

fn ends_in_a_vowel(t: &Term) -> (b: bool)
    ensures
        b == (t.text@.len() > 0 && (t.text@.last() == 'a' || t.text@.last() == 'A')),
{
    t.antya() == Some('a') || t.antya() == Some('A')
}

/// Whether 6.1.96 (usy apadāntāt) applies at the boundary of term `i` and the next nonempty
/// term `n`.
pub open spec fn usi_applies(ts: Seq<Term>, i: int, n: int) -> bool {
    ts[i].text@.len() > 0 && (ts[i].text@.last() == 'a' || ts[i].text@.last() == 'A')
        && ts[n].text@ == "us"@
}

/// Whether 6.1.90 (āṭaś ca) applies at the boundary of term `i` and the next nonempty term
/// `n`.
pub open spec fn at_applies(ts: Seq<Term>, i: int, n: int) -> bool {
    ts[i].u_is("Aw"@) && spec_s("ik"@).contains(ts[n].text@[0])
}

/// Runs vowel sandhi rules that apply between terms (as opposed to between sounds): 6.1.96
/// and 6.1.90 at the boundary of term `i` and the next term with text.
fn apply_ac_sandhi_at_term_boundary(p: &mut Prakriya, i: usize)
    ensures
        same_shape(*old(p), *final(p)),
        Prakriya::rewrote(*old(p), *final(p)),
        ({
            let ts = old(p).terms_seq();
            let n = next_nonempty(ts, i + 1);
            n == -1 || (!usi_applies(ts, i as int, n) && !at_applies(ts, i as int, n))
        }) ==> *final(p) == *old(p),
        ({
            let ts = old(p).terms_seq();
            let n = next_nonempty(ts, i + 1);
            n != -1 && usi_applies(ts, i as int, n)
        }) ==> crate::operators::term_rule_applied(
            *old(p),
            *final(p),
            "6.1.96",
            i as int,
            replace_antya(old(p).terms_seq()[i as int].text@, ""@),
        ),
        ({
            let ts = old(p).terms_seq();
            let n = next_nonempty(ts, i + 1);
            n != -1 && !usi_applies(ts, i as int, n) && at_applies(ts, i as int, n)
                && spec_to_vrddhi(ts[n].text@[0]) is None
        }) ==> final(p).terms_seq() == old(p).terms_seq() && Prakriya::logged(
            old(p).steps(),
            final(p).steps(),
            old(p).cfg().log_steps,
            "6.1.90",
            old(p).terms_seq(),
        ),
        ({
            let ts = old(p).terms_seq();
            let n = next_nonempty(ts, i + 1);
            n != -1 && !usi_applies(ts, i as int, n) && at_applies(ts, i as int, n)
                && spec_to_vrddhi(ts[n].text@[0]) is Some
        }) ==> {
            let ts = old(p).terms_seq();
            let us = final(p).terms_seq();
            let n = next_nonempty(ts, i + 1);
            &&& us.len() == ts.len()
            &&& forall|j: int| 0 <= j < ts.len() && j != i && j != n ==> us[j] == ts[j]
            &&& same_but_text(ts[i as int], us[i as int])
            &&& us[i as int].text@.len() == 0
            &&& same_but_text(ts[n], us[n])
            &&& us[n].text@ == replace_adi(ts[n].text@, spec_to_vrddhi(ts[n].text@[0])->0)
            &&& Prakriya::logged(
                old(p).steps(),
                final(p).steps(),
                old(p).cfg().log_steps,
                "6.1.90",
                us,
            )
        },
{
    proof {
        lemma_sound_lists();
        crate::prakriya::lemma_rewrote_refl(*p);
    }
    let ghost ts = p.terms_seq();
    let n = match p.find_next_where(i, not_empty) {
        Some(n) => n,
        None => {
            proof {
                if i < ts.len() {
                    lemma_next_nonempty_none(ts, i + 1);
                }
            }
            return;
        },
    };
    proof {
        lemma_next_nonempty_found(ts, i + 1, n as int);
    }
    let ik = sounds::s("ik");
    if p.has(i, ends_in_a_vowel) && p.has(n, crate::filters::text("us")) {
        crate::operators::term_antya(p, "6.1.96", i, "");
    } else if p.has(i, crate::filters::u("Aw")) && ik.contains_opt(p.terms()[n].adi()) {
        let op = |p: &mut Prakriya|
            ensures
                Prakriya::same_but_terms(*old(p), *final(p)),
                ({
                    let ts = old(p).terms_seq();
                    i < n < ts.len() && ts[n as int].text@.len() > 0 && spec_to_vrddhi(
                        ts[n as int].text@[0],
                    ) is Some
                }) ==> {
                    let ts = old(p).terms_seq();
                    let us = final(p).terms_seq();
                    &&& us.len() == ts.len()
                    &&& forall|j: int| 0 <= j < ts.len() && j != i && j != n ==> us[j] == ts[j]
                    &&& same_but_text(ts[i as int], us[i as int])
                    &&& us[i as int].text@.len() == 0
                    &&& same_but_text(ts[n as int], us[n as int])
                    &&& us[n as int].text@ == replace_adi(
                        ts[n as int].text@,
                        spec_to_vrddhi(ts[n as int].text@[0])->0,
                    )
                },
                !({
                    let ts = old(p).terms_seq();
                    i < n < ts.len() && ts[n as int].text@.len() > 0 && spec_to_vrddhi(
                        ts[n as int].text@[0],
                    ) is Some
                }) ==> *final(p) == *old(p),
            {
                let next_adi = match p.get(n) {
                    Some(t) => t.adi(),
                    None => None,
                };
                if let Some(c) = next_adi {
                    if let Some(sub) = sounds::to_vrddhi(c) {
                        let clear = |t: &mut Term|
                            ensures
                                final(t).text@.len() == 0,
                                same_but_text(*old(t), *final(t)),
                            {
                                t.text = String::new();
                            };
                        let set_adi = |t: &mut Term|
                            ensures
                                final(t).text@ == replace_adi(old(t).text@, sub@),
                                same_but_text(*old(t), *final(t)),
                            {
                                crate::operations::adi(t, sub);
                            };
                        p.set(i, clear);
                        p.set(n, set_adi);
                    }
                }
            };
        p.op("6.1.90", op);
    }
}

/// The texts `xs` of terms shaped as `ts` after 6.1.96 and 6.1.90 at the boundary of term `i`
/// and the next term with text, `m`: an `a`-vowel before `us` goes; after `Aw`, the first sound
/// of term `m`, where it is of `ik` and has a vrddhi substitute, takes it and term `i` is emptied.
pub open spec fn boundary_step(ts: Seq<Term>, xs: Seq<Seq<char>>, i: int) -> Seq<Seq<char>> {
    let m = crate::tripadi::next_filled(xs, i + 1);
    if m == -1 {
        xs
    } else if xs[i].len() > 0 && (xs[i].last() == 'a' || xs[i].last() == 'A') && xs[m] == "us"@ {
        xs.update(i, replace_antya(xs[i], Seq::empty()))
    } else if ts[i].u_is("Aw"@) && spec_s("ik"@).contains(xs[m][0]) && spec_to_vrddhi(xs[m][0]) is Some {
        xs.update(i, Seq::empty()).update(m, replace_adi(xs[m], spec_to_vrddhi(xs[m][0])->0))
    } else {
        xs
    }
}

proof fn lemma_next_filled_found(xs: Seq<Seq<char>>, j: int)
    requires
        0 <= j,
    ensures
        crate::tripadi::next_filled(xs, j) != -1 ==> j <= crate::tripadi::next_filled(xs, j) < xs.len()
            && xs[crate::tripadi::next_filled(xs, j)].len() > 0,
    decreases xs.len() - j,
{
    if j < xs.len() && xs[j].len() == 0 {
        lemma_next_filled_found(xs, j + 1);
    }
}

/// The texts `xs` of terms shaped as `ts` after `boundary_step` at the terms from `i` on, in
/// order.
pub open spec fn boundary_pass(ts: Seq<Term>, xs: Seq<Seq<char>>, i: int) -> Seq<Seq<char>>
    decreases ts.len() - i,
{
    if 0 <= i < ts.len() {
        boundary_pass(ts, boundary_step(ts, xs, i), i + 1)
    } else {
        xs
    }
}

/// The texts of the terms `ts` after `run_common`: the sandhi at the term boundaries, then the
/// general vowel sandhi (`general_ac_sandhi_of`); `None` where a rule on sounds does not settle.
pub open spec fn ac_sandhi_texts(ts: Seq<Term>) -> Option<Seq<Seq<char>>> {
    general_ac_sandhi_of(dhatu_flags(ts), boundary_pass(ts, crate::char_view::term_texts(ts), 0))
}

/// Whether neither 6.1.96 nor 6.1.90 applies at the boundary of term `i` of `ts` and the next
/// term with text.
pub open spec fn boundary_idle(ts: Seq<Term>, i: int) -> bool {
    let m = next_nonempty(ts, i + 1);
    m == -1 || (!usi_applies(ts, i, m) && !at_applies(ts, i, m))
}

/// Whether none of the rules of `run_common` has anything to do on `ts`.
pub open spec fn ac_sandhi_idle(ts: Seq<Term>) -> bool {
    &&& forall|i: int| 0 <= i < ts.len() ==> #[trigger] boundary_idle(ts, i)
    &&& vowel_rules_idle(concat_texts(ts))
}

/// Runs vowel sandhi between terms, then between sounds. Returns whether the rules between
/// sounds settled.
fn run_common(p: &mut Prakriya) -> (done: bool)
    ensures
        same_shape(*old(p), *final(p)),
        done ==> no_ad_guna_left(concat_texts(final(p).terms_seq())),
        ac_sandhi_idle(old(p).terms_seq()) ==> done && final(p).terms_seq() == old(
            p,
        ).terms_seq(),
        done == ac_sandhi_texts(old(p).terms_seq()) is Some,
        done ==> crate::char_view::term_texts(final(p).terms_seq()) == ac_sandhi_texts(
            old(p).terms_seq(),
        )->0,
        exists|mid: Prakriya|
            {
                &&& same_shape(*old(p), mid)
                &&& (done == general_ac_sandhi_texts(mid.terms_seq()) is Some)
                &&& (done ==> crate::char_view::term_texts(final(p).terms_seq())
                    == general_ac_sandhi_texts(mid.terms_seq())->0 && final(p).cfg() == mid.cfg())
            },
{
    let ghost idle = ac_sandhi_idle(p.terms_seq());
    let n = p.terms().len();
    let mut i: usize = 0;
    while i < n
        invariant
            i <= n,
            n == old(p).terms_seq().len(),
            same_shape(*old(p), *p),
            idle == ac_sandhi_idle(old(p).terms_seq()),
            idle ==> *p == *old(p),
            boundary_pass(old(p).terms_seq(), crate::char_view::term_texts(p.terms_seq()), i as int)
                == boundary_pass(old(p).terms_seq(), crate::char_view::term_texts(old(p).terms_seq()), 0),
        decreases n - i,
    {
        let ghost before = *p;
        proof {
            let ts = before.terms_seq();
            let xs = crate::char_view::term_texts(ts);
            crate::tripadi::lemma_next_filled(ts, i + 1);
            let m = next_nonempty(ts, i + 1);
            assert(same_but_text(old(p).terms_seq()[i as int], ts[i as int]));
            reveal_strlit("");
            reveal_strlit("us");
        }
        proof {
            if idle {
                assert(boundary_idle(old(p).terms_seq(), i as int));
            }
        }
        apply_ac_sandhi_at_term_boundary(p, i);
        proof {
            let ts = before.terms_seq();
            let xs = crate::char_view::term_texts(ts);
            lemma_next_filled_found(xs, i + 1);
            let m = next_nonempty(ts, i + 1);
            let us = p.terms_seq();
            if m != -1 {
                assert(ts[m].text@ == xs[m]);
                assert(ts[i as int].text@ == xs[i as int]);
                if usi_applies(ts, i as int, m) {
                } else if at_applies(ts, i as int, m) && spec_to_vrddhi(ts[m].text@[0]) is Some {
                    assert forall|j: int| 0 <= j < xs.len() implies #[trigger] crate::char_view::term_texts(us)[j]
                        == boundary_step(old(p).terms_seq(), xs, i as int)[j] by {
                        if j != i && j != m {
                            assert(us[j] == ts[j]);
                        }
                    }
                }
            }
            assert(crate::char_view::term_texts(p.terms_seq()) =~= boundary_step(old(p).terms_seq(), xs, i as int));
            lemma_same_shape_trans(*old(p), before, *p);
        }
        i = i + 1;
    }
    let ghost mid = *p;
    proof {
        lemma_dhatu_flags_shape(*old(p), mid);
    }
    let done = apply_general_ac_sandhi(p);
    proof {
        lemma_same_shape_trans(*old(p), mid, *p);
        assert(same_shape(*old(p), mid));
    }
    done
}

/// Applies the rules of vowel sandhi: `run_common`, then the sup sandhi of 6.1.93. Returns
/// whether the rules between sounds settled; the texts before the sup sandhi are then those of
/// `ac_sandhi_texts`.
pub fn run(p: &mut Prakriya) -> (done: bool)
    requires
        old(p).terms_seq().len() >= 1,
        old(p).terms_seq().len() == 1 ==> !old(p).terms_seq()[0].tagged(T::Sup),
    ensures
        same_shape(*old(p), *final(p)),
        exists|mid: Prakriya|
            {
                &&& same_shape(*old(p), mid)
                &&& (done ==> no_ad_guna_left(concat_texts(mid.terms_seq())))
                &&& (done == ac_sandhi_texts(old(p).terms_seq()) is Some)
                &&& (done ==> crate::char_view::term_texts(mid.terms_seq()) == ac_sandhi_texts(
                    old(p).terms_seq(),
                )->0)
                &&& sup_sandhi_result(mid, *final(p))
            },
{
    let done = run_common(p);
    let ghost mid = *p;
    assert(p.terms_seq()[0].tags == old(p).terms_seq()[0].tags);
    let ghost before = *p;
    sup_sandhi_before_angasya(p);
    proof {
        lemma_same_shape_trans(*old(p), before, *p);
    }
    sup_sandhi_after_angasya(p);
    assert(same_shape(*old(p), mid));
    done
}

} // verus!
