//! Rules that add the it-agama (7.2).
use crate::constants::Tag as T;
use crate::filters;
use crate::filters::count_vowels;
use crate::operators::{append_agama, is_agama_from};
use crate::prakriya::{allows, lemma_rewrote_refl, lemma_rewrote_trans, Prakriya, Rule, RuleChoice};
use crate::sounds;
use crate::sounds::{lemma_one_word, spec_s, valid_sound_list};
use crate::strings;
use crate::term::{first_sound, seq_has_str, spec_antya, strings_have, view_end, Term};
use vstd::prelude::*;

verus! {

/// Whether `t` counts as having one vowel for 7.2.10: it has exactly one, or its text holds
/// `fa`, which lets the am-agama apply.
pub fn is_hacky_eka_ac(t: &Term) -> (r: bool)
    ensures
        r == hacky_eka_ac(*t),
{
    filters::is_eka_ac(t) || strings::contains_str(t.text.as_str(), "fa")
}

/// Whether `t` counts as having one vowel for 7.2.10 (`is_hacky_eka_ac`).
pub open spec fn hacky_eka_ac(t: Term) -> bool {
    count_vowels(t.text@) == 1 || exists|k: int|
        0 <= k && k + "fa"@.len() <= t.text@.len() && #[trigger] t.text@.subrange(k, k + "fa"@.len())
            == "fa"@
}

proof fn lemma_it_sound_lists()
    ensures
        valid_sound_list("ac"@),
        valid_sound_list("val"@),
        valid_sound_list("vaS"@),
        valid_sound_list("uk"@),
{
    crate::ac_sandhi::lemma_sound_lists();
    reveal_strlit("vaS");
    reveal_strlit("uk");
    lemma_one_word("vaS"@);
    lemma_one_word("uk"@);
    reveal_with_fuel(crate::sounds::sutra_with, 15);
    assert(crate::sounds::sutra_with('v', 0) < 14);
    assert(crate::sounds::sutra_with('u', 0) < 14);
}

/// The terms of the view that starts at `i`: the term there and the agamas after it, up to the
/// first term that is not an agama.
pub open spec fn vterms(ts: Seq<Term>, i: int) -> Seq<Term> {
    ts.subrange(i, view_end(ts, i, i) + 1)
}

/// Whether some term of the view at `i` carries `tag`.
pub open spec fn vtagged(ts: Seq<Term>, i: int, tag: T) -> bool {
    exists|k: int| 0 <= k < vterms(ts, i).len() && (#[trigger] vterms(ts, i)[k]).tagged(tag)
}

/// Whether some term of the view at `i` has the former upadesha `x`.
pub open spec fn vlakshana(ts: Seq<Term>, i: int, x: Seq<char>) -> bool {
    exists|k: int| 0 <= k < vterms(ts, i).len() && strings_have((#[trigger] vterms(ts, i)[k]).lakshana@, x)
}

/// Whether `o` is a sound of the set named `name`.
pub open spec fn in_s(o: Option<char>, name: Seq<char>) -> bool {
    o is Some && spec_s(name).contains(o->0)
}

/// Whether `b` is `a` after the it-agama was added after the term at `i` by the rule `rule`.
pub open spec fn it_added(a: Prakriya, b: Prakriya, i: int, rule: Seq<char>) -> bool {
    &&& Prakriya::rewrote(a, b)
    &&& b.terms_seq() == a.terms_seq().insert(i + 1, b.terms_seq()[i + 1])
    &&& is_agama_from(b.terms_seq()[i + 1], "iw"@)
    &&& (a.cfg().log_steps ==> a.steps().len() < b.steps().len() && b.steps()[a.steps().len() as int].rule@
        == rule)
}

/// Whether the steps of `b` are those of `a` and, where steps are recorded, one more for the
/// rule `rule`.
pub open spec fn step_for(a: Prakriya, b: Prakriya, rule: Seq<char>) -> bool {
    if a.cfg().log_steps {
        &&& b.steps().len() == a.steps().len() + 1
        &&& b.steps().subrange(0, a.steps().len() as int) == a.steps()
        &&& b.steps().last().rule@ == rule
    } else {
        b.steps() == a.steps()
    }
}

/// Whether `b` is `a` after the it rules of 7.2.76 for the dhatu at `i`, which returned
/// `r`.
pub open spec fn sarvadhatuke_stage(a: Prakriya, b: Prakriya, i: int, r: bool) -> bool {
    &&& (r == sarvadhatuke_applies(a.terms_seq(), i))
    &&& (r ==> it_added(a, b, i, "7.2.76"@))
    &&& (!r ==> b == a)
}

/// Whether `b` is `a` after the it rules of 7.2.8 - 7.2.17 for the dhatu at `i`, which returned
/// `r`.
pub open spec fn general_anit_stage(a: Prakriya, b: Prakriya, i: int, r: bool) -> bool {
    &&& (r == general_anit(a, i) is Some)
    &&& (b.decisions() == if !asks_7_2_17(a.terms_seq(), i) {
        a.decisions()
    } else if allows_7_2_17(a) {
        a.decisions().push(RuleChoice::Accept("7.2.17"))
    } else {
        a.decisions().push(RuleChoice::Decline("7.2.17"))
    })
    &&& (b.terms_seq() == a.terms_seq())
    &&& (b.tag_set() == a.tag_set())
    &&& (b.cfg() == a.cfg())
    &&& (r ==> step_for(a, b, general_anit(a, i)->0))
    &&& (!r ==> b.steps() == a.steps())
}

/// Whether `b` is `a` after the it rules of 7.2.13 - 7.2.66 before liT for the dhatu at `i`,
/// which returned `r`.
pub open spec fn lit_it_stage(a: Prakriya, b: Prakriya, i: int, r: bool) -> bool {
    &&& (r == vlakshana(a.terms_seq(), i, "li~w"@))
    &&& (!r ==> b == a)
    &&& (r ==> it_outcome(
        a,
        b,
        i,
        lit_adds_it(a, i),
        lit_it_decisions(a, i),
        if lit_it(a, i).0 == 0 {
            "7.2.13"@
        } else {
            lit_it(a, i).1
        },
    ))
}

/// Whether `b` is `a` after the it rules of 7.2.10 - 7.2.78 before an ardhadhatuka for the dhatu
/// at `i`, which returned `r`; `radh_adi` and `vrdbhyah` are the dhatus of 7.2.45 and 7.2.59.
pub open spec fn ardhadhatuke_stage(
    a: Prakriya,
    b: Prakriya,
    i: int,
    radh_adi: Seq<&str>,
    vrdbhyah: Seq<&str>,
    r: bool,
) -> bool {
    &&& (!(i + 1 < a.terms_seq().len() && vtagged(a.terms_seq(), i + 1, T::Ardhadhatuka))
        ==> !r && b == a)
    &&& (i + 1 < a.terms_seq().len() && vtagged(a.terms_seq(), i + 1, T::Ardhadhatuka) ==> {
        let c = ardha_it(a, i, radh_adi, vrdbhyah);
        &&& r == (c.0 == 2)
        &&& if c.0 == 0 || c.0 == 4 {
            &&& b.terms_seq() == a.terms_seq()
            &&& b.decisions() == ardha_decisions(a, i, radh_adi)
            &&& b.steps() == a.steps()
            &&& b.tag_set() == a.tag_set()
            &&& b.cfg() == a.cfg()
        } else {
            it_outcome(
                a,
                b,
                i,
                c.0 != 2,
                ardha_decisions(a, i, radh_adi),
                c.1,
            )
        }
    })
}

/// Adds the it-agama after the term at `i` by the rule `rule` (via 7.2.35 and others).
fn add_it(rule: Rule, p: &mut Prakriya, i: usize)
    requires
        i < old(p).terms_seq().len(),
    ensures
        it_added(*old(p), *final(p), i as int, rule@),
{
    append_agama(rule, p, i, "iw");
}


/// The dhatus that take the it-agama before a sarvadhatuka of `val` (7.2.76).
pub open spec fn rudh_adi() -> Seq<&'static str> {
    seq!["rudi~r", "Yizva\\pa~", "Svasa~", "ana~", "jakza~"]
}

/// Whether 7.2.76 (rudAdiByaH sArvaDAtuke) adds the it-agama after the dhatu at `i`: the view
/// there starts with a sound of `val` and holds a sarvadhatuka, and the dhatu is one of
/// `rudh_adi`.
pub open spec fn sarvadhatuke_applies(ts: Seq<Term>, i: int) -> bool {
    &&& 0 <= i < ts.len()
    &&& in_s(first_sound(vterms(ts, i)), "val"@)
    &&& vtagged(ts, i, T::Sarvadhatuka)
    &&& crate::sanadi::u_in(ts[i], rudh_adi())
}

/// Runs the it rule that conditions on a following sarvadhatuka (7.2.76). Returns whether it
/// applied.
fn try_sarvadhatuke(p: &mut Prakriya, i: usize) -> (r: bool)
    ensures
        sarvadhatuke_stage(*old(p), *final(p), i as int, r),
{
    proof {
        lemma_it_sound_lists();
    }
    let val = sounds::s("val");
    let rudh = ["rudi~r", "Yizva\\pa~", "Svasa~", "ana~", "jakza~"];
    assert(rudh@ =~= rudh_adi());
    let applies = match p.view(i) {
        Some(n) => val.contains_opt(n.adi()) && n.has_tag(T::Sarvadhatuka)
            && p.terms()[i].has_u_in(&rudh),
        None => false,
    };
    if applies {
        add_it("7.2.76", p, i);
        true
    } else {
        false
    }
}

/// Whether the view at `i` meets 7.2.8 (neq vaSi kfti): a krt that starts with a sound other than
/// one of `vaS`.
pub open spec fn anit_7_2_8(ts: Seq<Term>, i: int) -> bool {
    vtagged(ts, i, T::Krt) && !in_s(first_sound(vterms(ts, i)), "vaS"@)
}

/// Whether the dhatu at `i` meets 7.2.11 (SryukaH kiti): `Sri` or one ending in `uk`, with one
/// vowel, before a kit.
pub open spec fn anit_7_2_11(ts: Seq<Term>, i: int) -> bool {
    let d = ts[i];
    hacky_eka_ac(d) && (d.text@ == "Sri"@ || in_s(spec_antya(d.text@), "uk"@)) && vtagged(
        ts,
        i,
        T::Kit,
    )
}

/// Whether the dhatu at `i` meets 7.2.12 (sani grahaguhoSca): `Sri`, `grah` or `guh` before san.
pub open spec fn anit_7_2_12(ts: Seq<Term>, i: int) -> bool {
    vterms(ts, i)[0].u_is("san"@) && seq_has_str(seq!["Sri", "grah", "guh"], ts[i].text@)
}

/// Whether 7.2.17 is asked about for the dhatu at `i`: an adit dhatu before a nistha, where no
/// earlier rule applies.
pub open spec fn asks_7_2_17(ts: Seq<Term>, i: int) -> bool {
    &&& !anit_7_2_8(ts, i)
    &&& !anit_7_2_11(ts, i)
    &&& !anit_7_2_12(ts, i)
    &&& vtagged(ts, i, T::Nistha)
    &&& !(ts[i].text@ == "Svi"@ || ts[i].tagged(T::Idit))
    &&& ts[i].tagged(T::Adit)
}

/// Whether 7.2.17 (viBAzA BAvAdikarmaRoH) allows the it-agama: the derivation is bhave or
/// karmani and the rule choices allow it.
pub open spec fn allows_7_2_17(p: Prakriya) -> bool {
    (p.tag_set().contains(T::Bhave) || p.tag_set().contains(T::Karmani)) && allows(
        p.cfg().rule_choices@,
        "7.2.17"@,
    )
}

/// The general rule that keeps the it-agama away from the dhatu at `i` (7.2.8 - 7.2.17), if one
/// applies: 7.2.8, 7.2.11, 7.2.12, 7.2.14 (`Svi` and the idit dhatus before a nistha) and 7.2.16
/// (the adit dhatus before a nistha, unless 7.2.17 allows the it-agama).
pub open spec fn general_anit(p: Prakriya, i: int) -> Option<Seq<char>> {
    let ts = p.terms_seq();
    if anit_7_2_8(ts, i) {
        Some("7.2.8"@)
    } else if anit_7_2_11(ts, i) {
        Some("7.2.11"@)
    } else if anit_7_2_12(ts, i) {
        Some("7.2.12"@)
    } else if vtagged(ts, i, T::Nistha) && (ts[i].text@ == "Svi"@ || ts[i].tagged(T::Idit)) {
        Some("7.2.14"@)
    } else if asks_7_2_17(ts, i) && !allows_7_2_17(p) {
        Some("7.2.16"@)
    } else {
        None
    }
}

/// Runs general rules that prevent iT-Agama (7.2.8 - 7.2.17), as `general_anit` says; 7.2.17
/// records its decision where it is asked. Returns whether one applied, which completes the
/// iT-Agama procedure.
fn try_general_anit(p: &mut Prakriya, i: usize) -> (r: bool)
    requires
        i < old(p).terms_seq().len(),
    ensures
        general_anit_stage(*old(p), *final(p), i as int, r),
{
    proof {
        lemma_it_sound_lists();
    }
    let vash = sounds::s("vaS");
    let uk = sounds::s("uk");
    let sri_grah = ["Sri", "grah", "guh"];
    assert(sri_grah@ =~= seq!["Sri", "grah", "guh"]);
    let bhave_karmani = [T::Bhave, T::Karmani];
    let n = match p.view(i) {
        Some(x) => x,
        None => return false,
    };
    let d = &p.terms()[i];
    let sri_uk = d.has_text("Sri") || uk.contains_opt(d.antya());
    let c8 = n.has_tag(T::Krt) && !vash.contains_opt(n.adi());
    let c11 = is_hacky_eka_ac(d) && sri_uk && n.has_tag(T::Kit);
    let c12 = n.has_u("san") && d.has_text_in(&sri_grah);
    let nistha = n.has_tag(T::Nistha);
    let c14 = d.has_text("Svi") || d.has_tag(T::Idit);
    let adit = d.has_tag(T::Adit);
    let code: Option<Rule> = if c8 {
        Some("7.2.8")
    } else if c11 {
        Some("7.2.11")
    } else if c12 {
        Some("7.2.12")
    } else if nistha {
        if c14 {
            Some("7.2.14")
        } else if adit {
            let code = "7.2.17";
            let any = p.any(&bhave_karmani);
            proof {
                assert(bhave_karmani@[0] == T::Bhave && bhave_karmani@[1] == T::Karmani);
            }
            if any && p.is_allowed(code) {
                None
            } else {
                p.decline(code);
                Some("7.2.16")
            }
        } else {
            None
        }
    } else {
        None
    };
    // TODO: 7.2.15, 7.2.18 - 7.2.34
    match code {
        Some(c) => {
            p.step(c);
            true
        },
        None => false,
    }
}


/// The dhatus that are always anit before liT (7.2.13).
pub open spec fn kradi() -> Seq<&'static str> {
    seq!["kf", "sf", "Bf", "vf", "stu", "dru", "sru", "Sru"]
}

/// Whether `Tal` starts the view at `i` and the dhatu there, ending in a vowel, is anudatta and
/// has one vowel: the case of 7.2.61 - 7.2.66 before liT.
pub open spec fn tal_case(ts: Seq<Term>, i: int) -> bool {
    let anga = ts[i];
    &&& in_s(spec_antya(anga.text@), "ac"@)
    &&& vterms(ts, i)[0].u_is("Tal"@)
    &&& anga.tagged(T::Anudatta)
    &&& hacky_eka_ac(anga)
}

/// Whether 7.2.65 (viBAzA sfjidfSoH) is in question: `sfj` or `dfS` before `Tal`.
pub open spec fn srj_drs_case(ts: Seq<Term>, i: int) -> bool {
    seq_has_str(seq!["sfj", "dfS"], ts[i].text@) && vterms(ts, i)[0].u_is("Tal"@)
}

/// What the rules of the it-agama before liT decide for the dhatu at `i`: 1 and the rule where
/// the it-agama comes, 2 and the rule where it does not, 0 where neither applies. 7.2.13 makes
/// `kf` and the others anit; before `Tal`, 7.2.61 makes a dhatu that ends in a vowel anit, 7.2.63
/// optionally seT where it does not end in `f`, and 7.2.66 makes `f` seT; 7.2.65 optionally makes
/// `sfj` and `dfS` anit.
pub open spec fn lit_it(p: Prakriya, i: int) -> (int, Seq<char>) {
    let ts = p.terms_seq();
    let anga = ts[i];
    let cs = p.cfg().rule_choices@;
    if seq_has_str(kradi(), anga.text@) {
        (2, "7.2.13"@)
    } else if tal_case(ts, i) {
        if spec_antya(anga.text@) != Some('f') {
            if allows(cs, "7.2.63"@) {
                (1, "7.2.63"@)
            } else {
                (2, "7.2.61"@)
            }
        } else if anga.u_is("f\\"@) {
            (1, "7.2.66"@)
        } else {
            (2, "7.2.61"@)
        }
    } else if srj_drs_case(ts, i) && allows(cs, "7.2.65"@) {
        (2, "7.2.65"@)
    } else {
        (0, Seq::empty())
    }
}

/// The decisions on optional rules after the rules of the it-agama before liT: 7.2.63 or 7.2.65
/// records whether it was used, where it is asked.
pub open spec fn lit_it_decisions(p: Prakriya, i: int) -> Seq<RuleChoice> {
    let ts = p.terms_seq();
    let anga = ts[i];
    let cs = p.cfg().rule_choices@;
    if seq_has_str(kradi(), anga.text@) {
        p.decisions()
    } else if tal_case(ts, i) {
        if spec_antya(anga.text@) != Some('f') {
            if allows(cs, "7.2.63"@) {
                p.decisions().push(RuleChoice::Accept("7.2.63"))
            } else {
                p.decisions().push(RuleChoice::Decline("7.2.63"))
            }
        } else {
            p.decisions()
        }
    } else if srj_drs_case(ts, i) {
        if allows(cs, "7.2.65"@) {
            p.decisions().push(RuleChoice::Accept("7.2.65"))
        } else {
            p.decisions().push(RuleChoice::Decline("7.2.65"))
        }
    } else {
        p.decisions()
    }
}

/// Whether the rules before liT add the it-agama after the dhatu at `i`: where one makes it seT,
/// or where none applies and the view there starts with a sound of `val` (7.2.35, since 7.2.13
/// leaves all other dhatus seT).
pub open spec fn lit_adds_it(p: Prakriya, i: int) -> bool {
    let c = lit_it(p, i);
    c.0 == 1 || (c.0 == 0 && in_s(first_sound(vterms(p.terms_seq(), i)), "val"@))
}

/// Whether `b` is `a` after the it-agama rules for the dhatu at `i` added the it-agama (where
/// `adds`) or left the terms as they were, with the decisions `ds` and the first new step for
/// `rule`.
pub open spec fn it_outcome(a: Prakriya, b: Prakriya, i: int, adds: bool, ds: Seq<RuleChoice>, rule: Seq<char>) -> bool {
    &&& b.decisions() == ds
    &&& b.tag_set() == a.tag_set()
    &&& b.cfg() == a.cfg()
    &&& a.steps().len() <= b.steps().len()
    &&& b.steps().subrange(0, a.steps().len() as int) == a.steps()
    &&& (a.cfg().log_steps ==> a.steps().len() < b.steps().len() && b.steps()[a.steps().len() as int].rule@ == rule)
    &&& if adds {
        &&& b.terms_seq() == a.terms_seq().insert(i + 1, b.terms_seq()[i + 1])
        &&& is_agama_from(b.terms_seq()[i + 1], "iw"@)
    } else {
        b.terms_seq() == a.terms_seq()
    }
}

/// Runs the it rules specific to liT (7.2.13, 7.2.35, 7.2.61 - 7.2.66), where the view at `i`
/// comes from liT, as `lit_it` says. Returns whether they ran, which completes the iT-Agama
/// procedure.
fn try_lit_it(p: &mut Prakriya, i: usize) -> (r: bool)
    requires
        i < old(p).terms_seq().len(),
    ensures
        lit_it_stage(*old(p), *final(p), i as int, r),
{
    proof {
        lemma_it_sound_lists();
    }
    let ghost p0 = *p;
    let ac = sounds::s("ac");
    let val = sounds::s("val");
    let kr = ["kf", "sf", "Bf", "vf", "stu", "dru", "sru", "Sru"];
    assert(kr@ =~= kradi());
    let srj = ["sfj", "dfS"];
    assert(srj@ =~= seq!["sfj", "dfS"]);
    let n = match p.view(i) {
        Some(x) => x,
        None => return false,
    };
    if !n.has_lakshana("li~w") {
        return false;
    }
    let anga = &p.terms()[i];
    let rule_7_2_10 = anga.has_tag(T::Anudatta) && is_hacky_eka_ac(anga);
    let tal = n.has_u("Tal");
    let is_kr = anga.has_text_in(&kr);
    let tal_case = ac.contains_opt(anga.antya()) && tal && rule_7_2_10;
    let ends_in_f = anga.antya() == Some('f');
    let is_r = anga.has_u("f\\");
    let is_srj = anga.has_text_in(&srj) && tal;
    // kind: 0 for none, 1 for seT, 2 for aniT.
    let (kind, code): (u8, Rule) = if is_kr {
        // These rules are always aniT.
        (2, "7.2.13")
    } else if tal_case {
        // 7.2.63 Rto bhAradvAjasya: for the roots that do not end in `f`, 7.2.61 is optional.
        if !ends_in_f {
            let code = "7.2.63";
            if p.is_allowed(code) {
                (1, code)
            } else {
                p.decline(code);
                (2, "7.2.61")
            }
        } else if is_r {
            (1, "7.2.66")
        } else {
            (2, "7.2.61")
        }
    } else if is_srj {
        // By default, these will be seT. So the option allows aniT.
        let code = "7.2.65";
        if p.is_allowed(code) {
            (2, code)
        } else {
            p.decline(code);
            (0, "")
        }
    } else {
        (0, "")
    };
    let ghost p1 = *p;
    if kind == 0 {
        // The effect of 7.2.13 is that all other roots are considered `sew` by default.
        p.step("7.2.13");
        let ghost p2 = *p;
        let adds = match p.view(i) {
            Some(n) => val.contains_opt(n.adi()),
            None => false,
        };
        if adds {
            add_it("7.2.35", p, i);
            proof {
                if p0.cfg().log_steps {
                    assert(p.steps()[p0.steps().len() as int] == p.steps().subrange(
                        0,
                        p2.steps().len() as int,
                    )[p0.steps().len() as int]);
                }
            }
        }
    } else if kind == 2 {
        p.step(code);
    } else {
        add_it(code, p, i);
    }
    proof {
        assert(p.steps().subrange(0, p0.steps().len() as int) =~= p.steps().subrange(
            0,
            p1.steps().len() as int,
        ).subrange(0, p0.steps().len() as int));
        assert(p1.decisions() == lit_it_decisions(p0, i as int));
        assert(kind as int == lit_it(p0, i as int).0);
        assert(code@ == lit_it(p0, i as int).1 || kind == 0);
        assert(p.decisions() == lit_it_decisions(p0, i as int));
        assert(adds_iw(p0, *p, i as int, lit_adds_it(p0, i as int)));
        assert(p.tag_set() == p0.tag_set());
        assert(p.cfg() == p0.cfg());
        assert(p0.steps().len() <= p.steps().len());
        assert(p.steps().subrange(0, p0.steps().len() as int) == p0.steps());
        if p0.cfg().log_steps {
            assert(p0.steps().len() < p.steps().len());
            assert(p.steps()[p0.steps().len() as int].rule@ == if lit_it(p0, i as int).0 == 0 {
                "7.2.13"@
            } else {
                lit_it(p0, i as int).1
            });
        }
    }
    true
}

spec fn adds_iw(a: Prakriya, b: Prakriya, i: int, adds: bool) -> bool {
    if adds {
        &&& b.terms_seq() == a.terms_seq().insert(i + 1, b.terms_seq()[i + 1])
        &&& is_agama_from(b.terms_seq()[i + 1], "iw"@)
    } else {
        b.terms_seq() == a.terms_seq()
    }
}


/// The first sound of the view at `i`.
pub open spec fn vadi(ts: Seq<Term>, i: int) -> Option<char> {
    first_sound(vterms(ts, i))
}

/// What the special rules before an ardhadhatuka decide for the dhatu at `i`, with the view at
/// `i + 1`: 1 and the rule where the it-agama comes (7.2.70 - 7.2.73), 3 and the rule where it
/// comes and the procedure goes on (7.2.77, 7.2.78), 4 where `si~c` after a dhatu in `A` waits
/// for the rules after Attva, 0 where none applies.
pub open spec fn ardha_special(ts: Seq<Term>, i: int) -> (int, Seq<char>) {
    let anga = ts[i];
    let n = vterms(ts, i + 1);
    if (spec_antya(anga.text@) == Some('f') || anga.text@ == "han"@) && n[0].u_is("sya"@) {
        (1, "7.2.70"@)
    } else if n[0].u_is("si~c"@) {
        if anga.text@ == "aYj"@ {
            (1, "7.2.71"@)
        } else if vtagged(ts, i + 1, T::Parasmaipada) {
            if crate::sanadi::u_in(anga, seq!["zwu\\Y", "zu\\Y", "DUY"]) {
                (1, "7.2.72"@)
            } else if seq_has_str(seq!["yam", "ram", "nam"], anga.text@) {
                (1, "7.2.73"@)
            } else if spec_antya(anga.text@) == Some('A') {
                (4, Seq::empty())
            } else {
                (0, Seq::empty())
            }
        } else {
            (0, Seq::empty())
        }
    } else if anga.text@ == "IS"@ && vadi(ts, i + 1) == Some('s') {
        (3, "7.2.77"@)
    } else if seq_has_str(seq!["Is", "Iq", "jan"], anga.text@) && (vadi(ts, i + 1) == Some('s')
        || ts[view_end(ts, i + 1, i + 1)].u_is("Dvam"@)) {
        (3, "7.2.78"@)
    } else {
        (0, Seq::empty())
    }
}

/// The dhatus whose it-agama before `t` is optional (7.2.48).
pub open spec fn ishu_saha() -> Seq<&'static str> {
    seq!["izu~", "zaha~\\", "luBa~", "ruza~", "riza~"]
}

/// The dhatus that 7.2.57 speaks of.
pub open spec fn krta_crta() -> Seq<&'static str> {
    seq!["kft", "cft", "Cfd", "tfd", "nft"]
}

/// Whether the optional 7.2.45 (raDAdiByaS ca) is in question for the dhatu at `i`: one of
/// `radh_adi` before a sound of `val`.
pub open spec fn asks_7_2_45(ts: Seq<Term>, i: int, radh_adi: Seq<&str>) -> bool {
    crate::sanadi::u_in(ts[i], radh_adi) && in_s(vadi(ts, i + 1), "val"@)
}

/// Whether the optional 7.2.48 (tIzasahaluBarizaH) is in question for the dhatu at `i`: one of
/// `ishu_saha` before `t`, where 7.2.45 is not.
pub open spec fn asks_7_2_48(ts: Seq<Term>, i: int, radh_adi: Seq<&str>) -> bool {
    !asks_7_2_45(ts, i, radh_adi) && crate::sanadi::u_in(ts[i], ishu_saha()) && vadi(ts, i + 1)
        == Some('t')
}

/// What the rules 7.2.45 - 7.2.60 decide for the dhatu at `i`, where no special rule applies:
/// as `ardha_special`, 1 for seT, 2 for aniT, 0 for neither. `radh_adi` and `vrdbhyah` are the
/// dhatus of 7.2.45 and 7.2.59.
pub open spec fn ardha_mid(p: Prakriya, i: int, radh_adi: Seq<&str>, vrdbhyah: Seq<&str>) -> (int, Seq<char>) {
    let ts = p.terms_seq();
    let anga = ts[i];
    let cs = p.cfg().rule_choices@;
    let para = vtagged(ts, i + 1, T::Parasmaipada);
    let se = vadi(ts, i + 1) == Some('s');
    if asks_7_2_45(ts, i, radh_adi) {
        if allows(cs, "7.2.45"@) {
            (1, "7.2.45"@)
        } else {
            (0, Seq::empty())
        }
    } else if asks_7_2_48(ts, i, radh_adi) {
        if allows(cs, "7.2.48"@) {
            (2, "7.2.48"@)
        } else {
            (0, Seq::empty())
        }
    } else if crate::sanadi::u_in(anga, krta_crta()) && se && !vterms(ts, i + 1)[0].u_is("si~c"@) {
        (0, Seq::empty())
    } else if anga.text@ == "gam"@ && para && se {
        (1, "7.2.58"@)
    } else if crate::sanadi::u_in(anga, vrdbhyah) && anga.gana == Some(1i32) && para && se {
        (2, "7.2.59"@)
    } else if anga.u_is("kfpU~\\"@) && para && (se || vterms(ts, i + 1)[0].u_is("tAsi~"@)) {
        (2, "7.2.60"@)
    } else {
        (0, Seq::empty())
    }
}

/// What the general rules decide for the dhatu at `i` before an ardhadhatuka: 7.2.10 makes an
/// anudatta dhatu of one vowel anit outside liT, and 7.2.35 adds the it-agama before a sound of
/// `val`.
pub open spec fn ardha_general(ts: Seq<Term>, i: int) -> (int, Seq<char>) {
    let anga = ts[i];
    if anga.tagged(T::Anudatta) && hacky_eka_ac(anga) && !vlakshana(ts, i + 1, "li~w"@) {
        (2, "7.2.10"@)
    } else if in_s(vadi(ts, i + 1), "val"@) && vtagged(ts, i + 1, T::Ardhadhatuka) {
        (1, "7.2.35"@)
    } else {
        (0, Seq::empty())
    }
}

/// What the rules of the it-agama before an ardhadhatuka decide for the dhatu at `i`, where the
/// view at `i + 1` holds an ardhadhatuka: the special rules, then 7.2.45 - 7.2.60, then the
/// general ones; the kinds are those of `ardha_special` and `ardha_mid`.
pub open spec fn ardha_it(p: Prakriya, i: int, radh_adi: Seq<&str>, vrdbhyah: Seq<&str>) -> (int, Seq<char>) {
    let ts = p.terms_seq();
    let s = ardha_special(ts, i);
    if s.0 != 0 {
        s
    } else if ardha_mid(p, i, radh_adi, vrdbhyah).0 != 0 {
        ardha_mid(p, i, radh_adi, vrdbhyah)
    } else {
        ardha_general(ts, i)
    }
}

/// The decisions on optional rules after the rules of the it-agama before an ardhadhatuka: 7.2.45
/// or 7.2.48 records whether it was used, where it is asked.
pub open spec fn ardha_decisions(p: Prakriya, i: int, radh_adi: Seq<&str>) -> Seq<RuleChoice> {
    let ts = p.terms_seq();
    let cs = p.cfg().rule_choices@;
    if ardha_special(ts, i).0 != 0 {
        p.decisions()
    } else if asks_7_2_45(ts, i, radh_adi) {
        p.decisions().push(
            if allows(cs, "7.2.45"@) {
                RuleChoice::Accept("7.2.45")
            } else {
                RuleChoice::Decline("7.2.45")
            },
        )
    } else if asks_7_2_48(ts, i, radh_adi) {
        p.decisions().push(
            if allows(cs, "7.2.48"@) {
                RuleChoice::Accept("7.2.48")
            } else {
                RuleChoice::Decline("7.2.48")
            },
        )
    } else {
        p.decisions()
    }
}

/// Runs the it rules that condition on a following ardhadhatuka (7.2.10, 7.2.35, 7.2.45 -
/// 7.2.78), where the view at `i + 1` holds one, as `ardha_it` says; `radh_adi` and `vrdbhyah`
/// are the dhatus of 7.2.45 and 7.2.59. Returns whether a rule made the dhatu anit, which
/// completes the iT-Agama procedure.
fn try_ardhadhatuke(p: &mut Prakriya, i: usize, radh_adi: &[&str], vrdbhyah: &[&str]) -> (r: bool)
    requires
        i < old(p).terms_seq().len(),
    ensures
        ardhadhatuke_stage(*old(p), *final(p), i as int, radh_adi@, vrdbhyah@, r),
{
    proof {
        lemma_it_sound_lists();
    }
    let ghost p0 = *p;
    let val = sounds::s("val");
    let zwu = ["zwu\\Y", "zu\\Y", "DUY"];
    assert(zwu@ =~= seq!["zwu\\Y", "zu\\Y", "DUY"]);
    let yam = ["yam", "ram", "nam"];
    assert(yam@ =~= seq!["yam", "ram", "nam"]);
    let is_iq = ["Is", "Iq", "jan"];
    assert(is_iq@ =~= seq!["Is", "Iq", "jan"]);
    let ishu = ["izu~", "zaha~\\", "luBa~", "ruza~", "riza~"];
    assert(ishu@ =~= ishu_saha());
    let krta = ["kft", "cft", "Cfd", "tfd", "nft"];
    assert(krta@ =~= krta_crta());
    let n_terms = p.terms().len();
    if i + 1 >= n_terms {
        return false;
    }
    let n = match p.view(i + 1) {
        Some(x) => x,
        None => return false,
    };
    let has_ardha = n.has_tag(T::Ardhadhatuka);
    proof {
        assert(n.terms_of() =~= vterms(p0.terms_seq(), i + 1));
        assert(has_ardha == vtagged(p0.terms_seq(), i + 1, T::Ardhadhatuka));
    }
    if !has_ardha {
        return false;
    }
    let anga = &p.terms()[i];
    let nadi = n.adi();
    let n_sya = n.has_u("sya");
    let n_sic = n.has_u("si~c");
    let n_para = n.has_tag(T::Parasmaipada);
    let n_dvam = match n.last() {
        Some(t) => t.has_u("Dvam"),
        None => false,
    };
    let n_tasi = n.has_u("tAsi~");
    let n_lit = n.has_lakshana("li~w");
    let n_ardha = n.has_tag(T::Ardhadhatuka);
    let antya = anga.antya();
    // kind: 0 for none, 1 for seT, 2 for aniT, 3 for seT by 7.2.77 or 7.2.78, 4 for waiting.
    let (kind, code): (u8, Rule) = if (antya == Some('f') || anga.has_text("han")) && n_sya {
        (1, "7.2.70")
    } else if n_sic {
        if anga.has_text("aYj") {
            (1, "7.2.71")
        } else if n_para {
            if anga.has_u_in(&zwu) {
                (1, "7.2.72")
            } else if anga.has_text_in(&yam) {
                (1, "7.2.73")
            } else if antya == Some('A') {
                // Handled after Attva.
                (4, "")
            } else {
                (0, "")
            }
        } else {
            (0, "")
        }
    } else if anga.has_text("IS") && nadi == Some('s') {
        (3, "7.2.77")
    } else if anga.has_text_in(&is_iq) && (nadi == Some('s') || n_dvam) {
        // See kAshika on 7.2.78 for inclusion of IS here.
        (3, "7.2.78")
    } else {
        (0, "")
    };
    let ghost ts = p0.terms_seq();
    assert(kind as int == ardha_special(ts, i as int).0);
    assert(kind == 0 || kind == 4 || code@ == ardha_special(ts, i as int).1);
    let c_radh = anga.has_u_in(radh_adi) && val.contains_opt(nadi);
    let c_ishu = anga.has_u_in(&ishu) && nadi == Some('t');
    let c_krta = anga.has_u_in(&krta) && nadi == Some('s') && !n_sic;
    let c_gam = anga.has_text("gam") && n_para && nadi == Some('s');
    let c_vrd = anga.has_u_in(vrdbhyah) && anga.has_gana(1) && n_para && nadi == Some('s');
    let c_krp = anga.has_u("kfpU~\\") && n_para && (nadi == Some('s') || n_tasi);
    let c_10 = anga.has_tag(T::Anudatta) && is_hacky_eka_ac(anga) && !n_lit;
    let c_35 = val.contains_opt(nadi) && n_ardha;
    if kind == 4 {
        return false;
    }
    if kind == 3 {
        add_it(code, p, i);
        return false;
    }
    let (kind, code): (u8, Rule) = if kind != 0 {
        (kind, code)
    } else if c_radh {
        // All of these roots are in scope for 7.2.10 (aniT). So, this option allows seT.
        if p.is_allowed("7.2.45") {
            (1, "7.2.45")
        } else {
            p.decline("7.2.45");
            (0, "")
        }
    } else if c_ishu {
        if p.is_allowed("7.2.48") {
            (2, "7.2.48")
        } else {
            p.decline("7.2.48");
            (0, "")
        }
    } else if c_krta {
        (0, "")
    } else if c_gam {
        (1, "7.2.58")
    } else if c_vrd {
        (2, "7.2.59")
    } else if c_krp {
        (2, "7.2.60")
    } else {
        (0, "")
    };
    // General cases
    let (kind, code): (u8, Rule) = if kind != 0 {
        (kind, code)
    } else if c_10 {
        // 7.2.10 is a niyama to the general rule, which applies only to ArdhadhAtuka suffixes.
        (2, "7.2.10")
    } else if c_35 {
        (1, "7.2.35")
    } else {
        (0, "")
    };
    let ghost p1 = *p;
    assert(kind as int == ardha_it(p0, i as int, radh_adi@, vrdbhyah@).0);
    assert(kind == 0 || code@ == ardha_it(p0, i as int, radh_adi@, vrdbhyah@).1);
    assert(p1.decisions() == ardha_decisions(p0, i as int, radh_adi@));
    if kind == 2 {
        p.step(code);
        proof {
            assert(p.steps().subrange(0, p0.steps().len() as int) =~= p0.steps());
        }
        true
    } else if kind == 1 {
        add_it(code, p, i);
        proof {
            assert(p.steps().subrange(0, p0.steps().len() as int) =~= p.steps().subrange(
                0,
                p1.steps().len() as int,
            ).subrange(0, p0.steps().len() as int));
            assert(it_outcome(p0, *p, i as int, true, p1.decisions(), code@));
        }
        false
    } else {
        false
    }
}


/// Whether `t` is a dhatu or an abhyasa.
pub open spec fn dhatu_or_abhyasa(t: Term) -> bool {
    t.tagged(T::Dhatu) || t.tagged(T::Abhyasa)
}

/// The index of the last dhatu or abhyasa of `ts`; -1 where there is none.
pub open spec fn last_dhatu_or_abhyasa(ts: Seq<Term>) -> int
    decreases ts.len(),
{
    if ts.len() == 0 {
        -1
    } else if dhatu_or_abhyasa(ts.last()) {
        ts.len() - 1
    } else {
        last_dhatu_or_abhyasa(ts.drop_last())
    }
}

proof fn lemma_last_dhatu_or_abhyasa(ts: Seq<Term>, r: Option<usize>)
    requires
        r matches Some(i) ==> i < ts.len() && dhatu_or_abhyasa(ts[i as int]) && forall|j: int|
            i < j < ts.len() ==> !dhatu_or_abhyasa(#[trigger] ts[j]),
        r is None ==> forall|j: int| 0 <= j < ts.len() ==> !dhatu_or_abhyasa(#[trigger] ts[j]),
    ensures
        r matches Some(i) ==> last_dhatu_or_abhyasa(ts) == i,
        r is None ==> last_dhatu_or_abhyasa(ts) == -1,
    decreases ts.len(),
{
    if ts.len() > 0 {
        let init = ts.drop_last();
        assert(ts.last() == ts[ts.len() - 1]);
        if !dhatu_or_abhyasa(ts.last()) {
            let r2: Option<usize> = match r {
                Some(i) => if (i as int) < init.len() {
                    Some(i)
                } else {
                    None
                },
                None => None,
            };
            if let Some(i) = r {
                assert forall|j: int| i < j < init.len() implies !dhatu_or_abhyasa(#[trigger] init[j]) by {
                    assert(init[j] == ts[j]);
                }
            } else {
                assert forall|j: int| 0 <= j < init.len() implies !dhatu_or_abhyasa(#[trigger] init[j]) by {
                    assert(init[j] == ts[j]);
                }
            }
            lemma_last_dhatu_or_abhyasa(init, r2);
        }
    }
}

fn is_dhatu_or_abhyasa(t: &Term) -> (b: bool)
    ensures
        b == dhatu_or_abhyasa(*t),
{
    t.has_tag(T::Dhatu) || t.has_tag(T::Abhyasa)
}

/// Whether `b` is `a` after the it-agama procedure for the dhatu at `i`, by way of the states
/// `a1` and `a2`: the rules before liT, where the view at `i` comes from liT; else the general
/// anit rules, and where none applies, the rules before an ardhadhatuka, and where none of them
/// makes the dhatu anit, the rule before a sarvadhatuka.
pub open spec fn before_attva_chain(
    a: Prakriya,
    a1: Prakriya,
    a2: Prakriya,
    b: Prakriya,
    i: int,
    radh_adi: Seq<&str>,
    vrdbhyah: Seq<&str>,
) -> bool {
    if vlakshana(a.terms_seq(), i, "li~w"@) {
        lit_it_stage(a, b, i, true)
    } else {
        let g = general_anit(a, i) is Some;
        &&& general_anit_stage(a, a1, i, g)
        &&& if g {
            b == a1
        } else {
            let ts1 = a1.terms_seq();
            let r2 = i + 1 < ts1.len() && vtagged(ts1, i + 1, T::Ardhadhatuka) && ardha_it(
                a1,
                i,
                radh_adi,
                vrdbhyah,
            ).0 == 2;
            &&& ardhadhatuke_stage(a1, a2, i, radh_adi, vrdbhyah, r2)
            &&& if r2 {
                b == a2
            } else {
                sarvadhatuke_stage(a2, b, i, sarvadhatuke_applies(a2.terms_seq(), i))
            }
        }
    }
}

/// Runs the rules of the it-agama that come before Attva on the last dhatu or abhyasa (the
/// abhyasa might come second): those before liT, the general anit rules, those before an
/// ardhadhatuka and the one before a sarvadhatuka, each only where the ones before it have not
/// completed the procedure (`before_attva_chain`). `radh_adi` and `vrdbhyah` are the dhatus of
/// 7.2.45 and 7.2.59. Where there is no dhatu or abhyasa, nothing changes.
pub fn run_before_attva(p: &mut Prakriya, radh_adi: &[&str], vrdbhyah: &[&str])
    ensures
        last_dhatu_or_abhyasa(old(p).terms_seq()) == -1 ==> *final(p) == *old(p),
        last_dhatu_or_abhyasa(old(p).terms_seq()) != -1 ==> exists|a1: Prakriya, a2: Prakriya|
            #[trigger] before_attva_chain(
                *old(p),
                a1,
                a2,
                *final(p),
                last_dhatu_or_abhyasa(old(p).terms_seq()),
                radh_adi@,
                vrdbhyah@,
            ),
{
    let ghost p0 = *p;
    let ghost ts = p.terms_seq();
    let found = p.find_last_where(is_dhatu_or_abhyasa);
    proof {
        lemma_last_dhatu_or_abhyasa(ts, found);
    }
    let i = match found {
        Some(i) => i,
        None => return,
    };
    if try_lit_it(p, i) {
        assert(before_attva_chain(p0, p0, p0, *p, i as int, radh_adi@, vrdbhyah@));
        return;
    }
    if try_general_anit(p, i) {
        assert(before_attva_chain(p0, *p, *p, *p, i as int, radh_adi@, vrdbhyah@));
        return;
    }
    let ghost a1 = *p;
    if try_ardhadhatuke(p, i, radh_adi, vrdbhyah) {
        assert(before_attva_chain(p0, a1, *p, *p, i as int, radh_adi@, vrdbhyah@));
        return;
    }
    let ghost a2 = *p;
    try_sarvadhatuke(p, i);
    assert(before_attva_chain(p0, a1, a2, *p, i as int, radh_adi@, vrdbhyah@));
}

} // verus!
