//! Rules of 8.4 that make sounds savarna with their neighbours.
use crate::char_view::{char_rule, quiet_at, quiet_on, same_but_log, same_shape, set_at, xy};
use crate::prakriya::{allows, concat_texts, Prakriya};
use crate::sounds;
use crate::sounds::{lemma_one_word, spec_s, valid_sound_list};
use crate::tripadi::lemma_always_changes_quiet;
use vstd::prelude::*;

verus! {

/// The sounds of the pratyahara `yay`.
pub open spec fn yay() -> Set<char> {
    spec_s("yay"@)
}

/// The sounds of the pratyahara `yam`.
pub open spec fn yam() -> Set<char> {
    spec_s("yam"@)
}

/// The sounds of the pratyahara `Jar`.
pub open spec fn jhar() -> Set<char> {
    spec_s("Jar"@)
}

proof fn lemma_savarna_lists()
    ensures
        valid_sound_list("yay"@),
        valid_sound_list("yam"@),
        valid_sound_list("Jar"@),
{
    reveal_strlit("yay");
    reveal_strlit("yam");
    reveal_strlit("Jar");
    lemma_one_word("yay"@);
    lemma_one_word("yam"@);
    lemma_one_word("Jar"@);
    reveal_with_fuel(crate::sounds::sutra_with, 9);
    assert(crate::sounds::sutra_with('y', 0) < 14);
    assert(crate::sounds::sutra_with('J', 0) < 14);
}

/// The nasal of the class of `y`, which 8.4.58 (anusvārasya yayi parasavarṇaḥ) puts for the
/// anusvara before it; the anusvara itself before the semivowels.
pub open spec fn parasavarna_nasal(y: char) -> Seq<char> {
    if y == 'k' || y == 'K' || y == 'g' || y == 'G' || y == 'N' {
        "N"@
    } else if y == 'c' || y == 'C' || y == 'j' || y == 'J' || y == 'Y' {
        "Y"@
    } else if y == 'w' || y == 'W' || y == 'q' || y == 'Q' || y == 'R' {
        "R"@
    } else if y == 't' || y == 'T' || y == 'd' || y == 'D' || y == 'n' {
        "n"@
    } else if y == 'p' || y == 'P' || y == 'b' || y == 'B' || y == 'm' {
        "m"@
    } else {
        "M"@
    }
}

fn nasal_for(y: char) -> (r: &'static str)
    ensures
        r@ == parasavarna_nasal(y),
{
    match y {
        'k' | 'K' | 'g' | 'G' | 'N' => "N",
        'c' | 'C' | 'j' | 'J' | 'Y' => "Y",
        'w' | 'W' | 'q' | 'Q' | 'R' => "R",
        't' | 'T' | 'd' | 'D' | 'n' => "n",
        'p' | 'P' | 'b' | 'B' | 'm' => "m",
        _ => "M",
    }
}

/// Whether no anusvara of `t` stands before a sound of `yay`.
pub open spec fn no_m_before_yay(t: Seq<char>) -> bool {
    forall|i: int| 0 <= i && i + 1 < t.len() && #[trigger] t[i] == 'M' ==> !yay().contains(t[i + 1])
}

/// Whether `x`, `y`, `z` are a consonant and a doubled sound of `yam`: the first case of
/// 8.4.64 (halo yamāṃ yami lopaḥ).
pub open spec fn doubled_yam(x: char, y: char, z: char) -> bool {
    crate::asiddhavat::hal().contains(x) && yam().contains(y) && yam().contains(z) && y == z
}

/// Whether `x`, `y`, `z` are a consonant and two savarna sounds of `Jar`: the case of 8.4.65
/// (jharo jhari savarṇe).
pub open spec fn savarna_jhar(x: char, y: char, z: char) -> bool {
    crate::asiddhavat::hal().contains(x) && jhar().contains(y) && jhar().contains(z)
        && crate::sounds::spec_savarna(y).contains(z)
}

/// Whether no three sounds of `t` meet `pred`, or the rule choices decline 8.4.64.
pub open spec fn triples_settled(
    t: Seq<char>,
    pred: spec_fn(char, char, char) -> bool,
    choices: Seq<crate::prakriya::RuleChoice>,
) -> bool {
    forall|i: int|
        0 <= i && i + 2 < t.len() && #[trigger] pred(t[i], t[i + 1], t[i + 2]) ==> !allows(
            choices,
            "8.4.64"@,
        )
}

/// Whether `a`, `b` and `c` are the derivation `p0` after each of the three rules of
/// `try_to_savarna` settled.
pub open spec fn savarna_settled(p0: Prakriya, a: Prakriya, b: Prakriya, c: Prakriya) -> bool {
    &&& same_shape(p0, a)
    &&& same_shape(a, b)
    &&& same_shape(b, c)
    &&& no_m_before_yay(concat_texts(a.terms_seq()))
    &&& triples_settled(
        concat_texts(b.terms_seq()),
        |x: char, y: char, z: char| doubled_yam(x, y, z),
        b.cfg().rule_choices@,
    )
    &&& triples_settled(
        concat_texts(c.terms_seq()),
        |x: char, y: char, z: char| savarna_jhar(x, y, z),
        c.cfg().rule_choices@,
    )
}

/// Whether none of the rules of `try_to_savarna` has anything to change on `ts` under the rule
/// choices `choices`.
pub open spec fn savarna_rules_idle(ts: Seq<crate::term::Term>, choices: Seq<crate::prakriya::RuleChoice>) -> bool {
    let t = concat_texts(ts);
    &&& no_m_before_yay(t)
    &&& triples_settled(t, |x: char, y: char, z: char| doubled_yam(x, y, z), choices)
    &&& triples_settled(t, |x: char, y: char, z: char| savarna_jhar(x, y, z), choices)
}

proof fn lemma_optional_triples_quiet<FF, OO>(
    f: FF,
    o: OO,
    pred: spec_fn(char, char, char) -> bool,
    x: Prakriya,
) where FF: Fn(&mut Prakriya, &str, usize) -> bool, OO: Fn(&mut Prakriya, &str, usize) -> bool
    requires
        forall|q: &mut Prakriya, t: &str, i: usize, b: bool|
            #[trigger] call_ensures(f, (q, t, i), b) ==> b == (i + 2 < t@.len() && pred(
                t@[i as int],
                t@[i + 1],
                t@[i + 2],
            )),
        forall|q: &mut Prakriya, t: &str, i: usize, c: bool|
            #[trigger] call_ensures(o, (q, t, i), c) ==> (!c ==> !allows(
                q.cfg().rule_choices@,
                "8.4.64"@,
            )),
        quiet_on(f, o, x),
    ensures
        triples_settled(concat_texts(x.terms_seq()), pred, x.cfg().rule_choices@),
{
    let (start, text) = choose|start: Prakriya, text: &str|
        #![trigger same_but_log(start, x), text@]
        same_but_log(start, x) && text@ == concat_texts(start.terms_seq()) && text@.len()
            <= usize::MAX && forall|i: usize|
            (i as int) < text@.len() ==> #[trigger] quiet_at(f, o, text, i, start);
    let t = text@;
    assert forall|i: int| 0 <= i && i + 2 < t.len() && #[trigger] pred(t[i], t[i + 1], t[i + 2]) implies !allows(
        x.cfg().rule_choices@,
        "8.4.64"@,
    ) by {
        let iu = i as usize;
        assert(quiet_at(f, o, text, iu, start));
        let (q, b) = choose|q: &mut Prakriya, b: bool|
            same_but_log(start, *q) && #[trigger] call_ensures(f, (q, text, iu), b) && (b ==> exists|
                q2: &mut Prakriya,
            | same_but_log(start, *q2) && #[trigger] call_ensures(o, (q2, text, iu), false));
        assert(b);
        let q2 = choose|q2: &mut Prakriya|
            same_but_log(start, *q2) && #[trigger] call_ensures(o, (q2, text, iu), false);
        assert(call_ensures(o, (q2, text, iu), false));
    }
}

/// Where 8.4.58 looks: the anusvara before a sound of `yay`.
pub open spec fn m_yay_accepts() -> crate::tripadi::SoundAccepts {
    |xs: Seq<Seq<char>>, i: int| {
        let t = crate::char_view::joined(xs);
        0 <= i && i + 1 < t.len() && t[i] == 'M' && yay().contains(t[i + 1])
    }
}

/// What 8.4.58 puts: the nasal of the class of the next sound.
pub open spec fn parasavarna_rewrite() -> crate::tripadi::SoundRewrite {
    |xs: Seq<Seq<char>>, i: int| {
        let t = crate::char_view::joined(xs);
        Some(
            if 0 <= i && i + 1 < t.len() {
                crate::char_view::set_sound(xs, i, parasavarna_nasal(t[i + 1]))
            } else {
                xs
            },
        )
    }
}

/// Where the first case of 8.4.64 looks: a consonant and a doubled sound of `yam`.
pub open spec fn doubled_yam_accepts() -> crate::tripadi::SoundAccepts {
    |xs: Seq<Seq<char>>, i: int| {
        let t = crate::char_view::joined(xs);
        0 <= i && i + 2 < t.len() && doubled_yam(t[i], t[i + 1], t[i + 2])
    }
}

/// Where 8.4.65 looks: a consonant and two savarna sounds of `Jar`.
pub open spec fn savarna_jhar_accepts() -> crate::tripadi::SoundAccepts {
    |xs: Seq<Seq<char>>, i: int| {
        let t = crate::char_view::joined(xs);
        0 <= i && i + 2 < t.len() && savarna_jhar(t[i], t[i + 1], t[i + 2])
    }
}

/// What the optional lopa of 8.4.64 and 8.4.65 does under the rule choices `choices`: where
/// they allow it, the sound after `i` goes.
pub open spec fn optional_lopa_rewrite(choices: Seq<crate::prakriya::RuleChoice>) -> crate::tripadi::SoundRewrite {
    |xs: Seq<Seq<char>>, i: int| if allows(choices, "8.4.64"@) {
        Some(crate::char_view::set_sound(xs, i + 1, Seq::empty()))
    } else {
        None
    }
}

/// The texts of the terms `ts` after 8.4.58, 8.4.64 and 8.4.65 under the rule choices
/// `choices`, each applied until it changes nothing; `None` where one does not settle.
pub open spec fn savarna_texts(ts: Seq<crate::term::Term>, choices: Seq<crate::prakriya::RuleChoice>) -> Option<
    Seq<Seq<char>>,
> {
    let x1 = crate::char_view::settle(m_yay_accepts(), parasavarna_rewrite(), crate::char_view::term_texts(ts), 10);
    let x2 = crate::ac_sandhi::then_settle(x1, doubled_yam_accepts(), optional_lopa_rewrite(choices));
    crate::ac_sandhi::then_settle(x2, savarna_jhar_accepts(), optional_lopa_rewrite(choices))
}

/// Makes sounds savarna with the sound after them: the anusvara before a sound of `yay`
/// becomes the nasal of its class (8.4.58, anusvārasya yayi parasavarṇaḥ); after a consonant,
/// the first of a doubled `yam` (8.4.64, halo yamāṃ yami lopaḥ) and the first of two savarna
/// sounds of `Jar` (8.4.65, jharo jhari savarṇe) are optionally dropped. Each rule runs on
/// sounds until it finds nothing more to change. Returns whether each rule settled; where one
/// keeps changing the text, it stops there and returns false.
pub fn try_to_savarna(p: &mut Prakriya) -> (done: bool)
    ensures
        same_shape(*old(p), *final(p)),
        done ==> exists|a: Prakriya, b: Prakriya| #[trigger] savarna_settled(*old(p), a, b, *final(p)),
        savarna_rules_idle(old(p).terms_seq(), old(p).cfg().rule_choices@) ==> done
            && final(p).terms_seq() == old(p).terms_seq(),
        done == savarna_texts(old(p).terms_seq(), old(p).cfg().rule_choices@) is Some,
        done ==> crate::char_view::term_texts(final(p).terms_seq()) == savarna_texts(
            old(p).terms_seq(),
            old(p).cfg().rule_choices@,
        )->0 && final(p).cfg() == old(p).cfg(),
{
    proof {
        lemma_savarna_lists();
        crate::asiddhavat::lemma_hal();
    }
    let yay_set = sounds::s("yay");
    let yam_set = sounds::s("yam");
    let jhar_set = sounds::s("Jar");
    let hal_set = sounds::s("hal");
    let ghost p0 = *p;
    let ghost choices = p.cfg().rule_choices@;
    let ghost idle = savarna_rules_idle(p.terms_seq(), choices);

    let inner = |x: char, y: char| -> (b: bool)
        ensures
            b == (x == 'M' && yay_set@.contains(y)),
        { x == 'M' && yay_set.contains_char(y) };
    let o = |p: &mut Prakriya, text: &str, i: usize| -> (c: bool)
        ensures
            same_shape(*old(p), *final(p)),
            c,
            text@ == concat_texts(old(p).terms_seq()) && (i as int) < text@.len() ==> (c == (parasavarna_rewrite())(
                crate::char_view::term_texts(old(p).terms_seq()),
                i as int,
            ) is Some) && (c ==> final(p).cfg() == old(p).cfg() && final(p).tag_set() == old(p).tag_set()
                && crate::char_view::term_texts(final(p).terms_seq()) == (parasavarna_rewrite())(
                crate::char_view::term_texts(old(p).terms_seq()),
                i as int,
            )->0),
        {
            proof {
                crate::char_view::lemma_joined(p.terms_seq());
            }
            let n = text.unicode_len();
            if i < n && n - i > 1 {
                let sub = nasal_for(text.get_char(i + 1));
                set_at(p, i, sub);
            }
            p.step("8.4.58");
            true
        };
    let f = xy(inner);
    proof {
        if idle {
            let t = concat_texts(p.terms_seq());
            assert forall|i: int, b: bool|
                0 <= i && i + 1 < t.len() && #[trigger] call_ensures(inner, (t[i], t[i + 1]), b) implies !b by {
                if t[i] == 'M' {
                    assert(!yay().contains(t[i + 1]));
                }
            }
            crate::char_view::lemma_xy_inert(f, o, inner, *p);
        }
    }
    let ghost x1 = *p;
    proof {
        assert forall|q: &mut Prakriya, t: &str, i: usize, b: bool|
            #[trigger] call_ensures(f, (q, t, i), b) && same_shape(x1, *q) && q.cfg() == x1.cfg()
                && t@ == concat_texts(q.terms_seq()) && (i as int) < t@.len() implies same_but_log(
            *q,
            *final(q),
        ) && b == (m_yay_accepts())(crate::char_view::term_texts(q.terms_seq()), i as int) by {
            crate::char_view::lemma_joined(q.terms_seq());
            if i + 1 < t@.len() {
                assert(call_ensures(inner, (t@[i as int], t@[i + 1]), b));
            }
        }
        assert forall|q: &mut Prakriya, t: &str, i: usize, c: bool|
            #[trigger] call_ensures(o, (q, t, i), c) && same_shape(x1, *q) && q.cfg() == x1.cfg()
                && t@ == concat_texts(q.terms_seq()) && (i as int) < t@.len() implies (c == (parasavarna_rewrite())(
            crate::char_view::term_texts(q.terms_seq()),
            i as int,
        ) is Some) && (c ==> same_shape(*q, *final(q)) && final(q).cfg() == q.cfg()
            && final(q).tag_set() == q.tag_set() && crate::char_view::term_texts(final(q).terms_seq())
            == (parasavarna_rewrite())(crate::char_view::term_texts(q.terms_seq()), i as int)->0) && (!c
            ==> same_but_log(*q, *final(q))) by {}
    }
    let r1 = char_rule(p, f, o);
    proof {
        assert(crate::char_view::settle(m_yay_accepts(), parasavarna_rewrite(), crate::char_view::term_texts(x1.terms_seq()), 10)
            == crate::char_view::settle(m_yay_accepts(), parasavarna_rewrite(), crate::char_view::term_texts(x1.terms_seq()), 10));
    }
    if !r1 {
        return false;
    }
    let ghost a = *p;
    proof {
        lemma_always_changes_quiet(f, o, inner, a);
        let t = concat_texts(a.terms_seq());
        assert forall|i: int| 0 <= i && i + 1 < t.len() && #[trigger] t[i] == 'M' implies !yay().contains(
            t[i + 1],
        ) by {
            assert(call_ensures(inner, (t[i], t[i + 1]), false));
        }
    }

    let f = |p: &mut Prakriya, text: &str, i: usize| -> (b: bool)
        ensures
            *final(p) == *old(p),
            b == (i + 2 < text@.len() && hal_set@.contains(text@[i as int]) && yam_set@.contains(
                text@[i + 1],
            ) && yam_set@.contains(text@[i + 2]) && text@[i + 1] == text@[i + 2]),
        {
            match crate::char_view::xyz(p, text, i) {
                Some((x, y, z)) => hal_set.contains_char(x) && yam_set.contains_char(y)
                    && yam_set.contains_char(z) && y == z,
                None => false,
            }
        };
    let o = |p: &mut Prakriya, text: &str, i: usize| -> (c: bool)
        ensures
            same_shape(*old(p), *final(p)),
            !c ==> same_but_log(*old(p), *final(p)) && !allows(old(p).cfg().rule_choices@, "8.4.64"@),
            c ==> allows(old(p).cfg().rule_choices@, "8.4.64"@),
            text@ == concat_texts(old(p).terms_seq()) && (i as int) < text@.len() ==> (c == (optional_lopa_rewrite(old(p).cfg().rule_choices@))(
                crate::char_view::term_texts(old(p).terms_seq()),
                i as int,
            ) is Some) && (c ==> final(p).cfg() == old(p).cfg() && final(p).tag_set() == old(p).tag_set()
                && crate::char_view::term_texts(final(p).terms_seq()) == (optional_lopa_rewrite(old(p).cfg().rule_choices@))(
                crate::char_view::term_texts(old(p).terms_seq()),
                i as int,
            )->0),
        {
            proof {
                crate::char_view::lemma_joined(p.terms_seq());
                reveal_strlit("");
            }
            if p.is_allowed("8.4.64") {
                if i < text.unicode_len() {
                    set_at(p, i + 1, "");
                }
                p.step("8.4.64");
                true
            } else {
                p.decline("8.4.64");
                false
            }
        };
    proof {
        if idle {
            let x = *p;
            assert(x.terms_seq() == p0.terms_seq() && x.cfg() == p0.cfg());
            let t = concat_texts(x.terms_seq());
            let pred = |x: char, y: char, z: char| doubled_yam(x, y, z);
            assert forall|i: int|
                0 <= i && i + 2 < t.len() && #[trigger] doubled_yam(t[i], t[i + 1], t[i + 2]) implies !allows(
                choices,
                "8.4.64"@,
            ) by {
                assert(pred(t[i], t[i + 1], t[i + 2]));
            }
            crate::char_view::lemma_cond_pair_inert(
                f,
                o,
                |t: Seq<char>, i: int| i + 2 < t.len() && doubled_yam(t[i], t[i + 1], t[i + 2]),
                |t: Seq<char>, i: int| allows(choices, "8.4.64"@),
                x,
            );
        }
    }
    let ghost x2 = *p;
    proof {
        assert forall|q: &mut Prakriya, t: &str, i: usize, b: bool|
            #[trigger] call_ensures(f, (q, t, i), b) && same_shape(x2, *q) && q.cfg() == x2.cfg()
                && t@ == concat_texts(q.terms_seq()) && (i as int) < t@.len() implies same_but_log(
            *q,
            *final(q),
        ) && b == (doubled_yam_accepts())(crate::char_view::term_texts(q.terms_seq()), i as int) by {
            crate::char_view::lemma_joined(q.terms_seq());
        }
        assert forall|q: &mut Prakriya, t: &str, i: usize, c: bool|
            #[trigger] call_ensures(o, (q, t, i), c) && same_shape(x2, *q) && q.cfg() == x2.cfg()
                && t@ == concat_texts(q.terms_seq()) && (i as int) < t@.len() implies (c == (optional_lopa_rewrite(p0.cfg().rule_choices@))(
            crate::char_view::term_texts(q.terms_seq()),
            i as int,
        ) is Some) && (c ==> same_shape(*q, *final(q)) && final(q).cfg() == q.cfg()
            && final(q).tag_set() == q.tag_set() && crate::char_view::term_texts(final(q).terms_seq())
            == (optional_lopa_rewrite(p0.cfg().rule_choices@))(crate::char_view::term_texts(q.terms_seq()), i as int)->0) && (!c
            ==> same_but_log(*q, *final(q))) by {}
    }
    let r2 = char_rule(p, f, o);
    proof {
        assert(crate::char_view::settle(doubled_yam_accepts(), optional_lopa_rewrite(p0.cfg().rule_choices@), crate::char_view::term_texts(x2.terms_seq()), 10)
            == crate::char_view::settle(doubled_yam_accepts(), optional_lopa_rewrite(p0.cfg().rule_choices@), crate::char_view::term_texts(x2.terms_seq()), 10));
    }
    if !r2 {
        return false;
    }
    let ghost b = *p;
    proof {
        let pred = |x: char, y: char, z: char| doubled_yam(x, y, z);
        lemma_optional_triples_quiet(f, o, pred, b);
    }

    let f = |p: &mut Prakriya, text: &str, i: usize| -> (b: bool)
        ensures
            *final(p) == *old(p),
            b == (i + 2 < text@.len() && hal_set@.contains(text@[i as int]) && jhar_set@.contains(
                text@[i + 1],
            ) && jhar_set@.contains(text@[i + 2]) && crate::sounds::spec_savarna(text@[i + 1]).contains(
                text@[i + 2],
            )),
        {
            match crate::char_view::xyz(p, text, i) {
                Some((x, y, z)) => hal_set.contains_char(x) && jhar_set.contains_char(y)
                    && jhar_set.contains_char(z) && sounds::is_savarna(y, z),
                None => false,
            }
        };
    let o = |p: &mut Prakriya, text: &str, i: usize| -> (c: bool)
        ensures
            same_shape(*old(p), *final(p)),
            !c ==> same_but_log(*old(p), *final(p)) && !allows(old(p).cfg().rule_choices@, "8.4.64"@),
            c ==> allows(old(p).cfg().rule_choices@, "8.4.64"@),
            text@ == concat_texts(old(p).terms_seq()) && (i as int) < text@.len() ==> (c == (optional_lopa_rewrite(old(p).cfg().rule_choices@))(
                crate::char_view::term_texts(old(p).terms_seq()),
                i as int,
            ) is Some) && (c ==> final(p).cfg() == old(p).cfg() && final(p).tag_set() == old(p).tag_set()
                && crate::char_view::term_texts(final(p).terms_seq()) == (optional_lopa_rewrite(old(p).cfg().rule_choices@))(
                crate::char_view::term_texts(old(p).terms_seq()),
                i as int,
            )->0),
        {
            proof {
                crate::char_view::lemma_joined(p.terms_seq());
                reveal_strlit("");
            }
            if p.is_allowed("8.4.64") {
                if i < text.unicode_len() {
                    set_at(p, i + 1, "");
                }
                p.step("8.4.64");
                true
            } else {
                p.decline("8.4.64");
                false
            }
        };
    proof {
        if idle {
            let x = *p;
            assert(x.terms_seq() == p0.terms_seq() && x.cfg() == p0.cfg());
            let t = concat_texts(x.terms_seq());
            let pred = |x: char, y: char, z: char| savarna_jhar(x, y, z);
            assert forall|i: int|
                0 <= i && i + 2 < t.len() && #[trigger] savarna_jhar(t[i], t[i + 1], t[i + 2]) implies !allows(
                choices,
                "8.4.64"@,
            ) by {
                assert(pred(t[i], t[i + 1], t[i + 2]));
            }
            crate::char_view::lemma_cond_pair_inert(
                f,
                o,
                |t: Seq<char>, i: int| i + 2 < t.len() && savarna_jhar(t[i], t[i + 1], t[i + 2]),
                |t: Seq<char>, i: int| allows(choices, "8.4.64"@),
                x,
            );
        }
    }
    let ghost x3 = *p;
    proof {
        assert forall|q: &mut Prakriya, t: &str, i: usize, b: bool|
            #[trigger] call_ensures(f, (q, t, i), b) && same_shape(x3, *q) && q.cfg() == x3.cfg()
                && t@ == concat_texts(q.terms_seq()) && (i as int) < t@.len() implies same_but_log(
            *q,
            *final(q),
        ) && b == (savarna_jhar_accepts())(crate::char_view::term_texts(q.terms_seq()), i as int) by {
            crate::char_view::lemma_joined(q.terms_seq());
        }
        assert forall|q: &mut Prakriya, t: &str, i: usize, c: bool|
            #[trigger] call_ensures(o, (q, t, i), c) && same_shape(x3, *q) && q.cfg() == x3.cfg()
                && t@ == concat_texts(q.terms_seq()) && (i as int) < t@.len() implies (c == (optional_lopa_rewrite(p0.cfg().rule_choices@))(
            crate::char_view::term_texts(q.terms_seq()),
            i as int,
        ) is Some) && (c ==> same_shape(*q, *final(q)) && final(q).cfg() == q.cfg()
            && final(q).tag_set() == q.tag_set() && crate::char_view::term_texts(final(q).terms_seq())
            == (optional_lopa_rewrite(p0.cfg().rule_choices@))(crate::char_view::term_texts(q.terms_seq()), i as int)->0) && (!c
            ==> same_but_log(*q, *final(q))) by {}
    }
    let done = char_rule(p, f, o);
    proof {
        assert(crate::char_view::settle(savarna_jhar_accepts(), optional_lopa_rewrite(p0.cfg().rule_choices@), crate::char_view::term_texts(x3.terms_seq()), 10)
            == crate::char_view::settle(savarna_jhar_accepts(), optional_lopa_rewrite(p0.cfg().rule_choices@), crate::char_view::term_texts(x3.terms_seq()), 10));
    }

    proof {
        crate::char_view::lemma_same_shape_trans(p0, a, b);
        crate::char_view::lemma_same_shape_trans(p0, b, *p);
        if done {
            let pred = |x: char, y: char, z: char| savarna_jhar(x, y, z);
            lemma_optional_triples_quiet(f, o, pred, *p);
            assert(savarna_settled(p0, a, b, *p));
        }
    }
    done
}

} // verus!
