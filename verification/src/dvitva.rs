//! Doubles the dhatu (6.1.1 - 6.1.11).
use crate::constants::Tag as T;
use crate::filters;
use crate::filters::count_vowels;
use crate::operations::same_but_text;
use crate::prakriya::{lemma_rewrote_refl, lemma_rewrote_trans, Prakriya, Rule};
use crate::sanadi::u_in;
use crate::sounds;
use crate::sounds::{spec_is_ac, spec_is_hal, spec_is_samyogadi};
use crate::strings;
use crate::term::{seq_has_str, strings_have, Term};
use vstd::prelude::*;

verus! {

/// `Ric` and `RiN`.
pub open spec fn ni_list() -> Seq<&'static str> {
    seq!["Ric", "RiN"]
}

/// Whether `b` is the term `a` with the tag `tag` added.
pub open spec fn with_tag(a: Term, b: Term, tag: T) -> bool {
    &&& b.u == a.u
    &&& b.text == a.text
    &&& b.tags@ == a.tags@.insert(tag)
    &&& b.gana == a.gana
    &&& b.number == a.number
    &&& b.lakshana == a.lakshana
}

/// `x` without the `n`, `d` and `r` that start a conjunct at its start (6.1.3, na ndrAH
/// saMyogAdayaH).
pub open spec fn drop_ndr(x: Seq<char>) -> Seq<char>
    decreases x.len(),
{
    if spec_is_samyogadi(x) && (x[0] == 'n' || x[0] == 'd' || x[0] == 'r') {
        drop_ndr(x.drop_first())
    } else {
        x
    }
}

/// How 6.1.1 - 6.1.5 double the dhatu at `i` of `ts`, which has a text and a next term: 1 where
/// it starts with a vowel and ends in a consonant before `Ric` or `RiN` (6.1.2), 2 where it has
/// one vowel or starts with a consonant (6.1.1), and 0 otherwise.
pub open spec fn dvitva_case(ts: Seq<Term>, i: int) -> int {
    let d = ts[i].text@;
    if spec_is_ac(d[0]) && spec_is_hal(d.last()) && u_in(ts[i + 1], ni_list()) {
        1
    } else if count_vowels(d) == 1 || spec_is_hal(d[0]) {
        2
    } else {
        0
    }
}

/// Whether `t` is the doubled part of 6.1.2 for the dhatu `d` before the pratyaya `ni`: the text
/// of `d` after its first vowel, then that of `ni`, without a leading `n`, `d` or `r` of a
/// conjunct (6.1.3); a dhatu, abhyasta, with the upadesha of `ni`.
pub open spec fn is_third(t: Term, d: Term, ni: Term) -> bool {
    &&& t.u_is(ni.u->0@)
    &&& t.text@ == drop_ndr(d.text@.drop_first() + ni.text@)
    &&& t.tags@ == set![T::Dhatu, T::Abhyasta]
    &&& t.gana is None
    &&& t.number is None
    &&& t.lakshana@.len() == 0
}

/// Whether `us` are the terms `ts` after the dhatu at `i` was doubled as `dvitva_case` says: for
/// 6.1.2, the dhatu and the `Ni` after it are followed by the doubled part, and the `Ni` is
/// termed abhyasa (6.1.4); for 6.1.1, a copy of the dhatu, termed abhyasa, comes before it; in
/// both, the terms of the doubled whole are termed abhyasta (6.1.5).
pub open spec fn doubled(ts: Seq<Term>, us: Seq<Term>, i: int) -> bool {
    let c = dvitva_case(ts, i);
    if c == 1 {
        &&& us.len() == ts.len() + 1
        &&& forall|m: int| 0 <= m < i ==> us[m] == ts[m]
        &&& with_tag(ts[i], us[i], T::Abhyasta)
        &&& us[i + 1].u == ts[i + 1].u
        &&& us[i + 1].text == ts[i + 1].text
        &&& us[i + 1].tags@ == ts[i + 1].tags@.insert(T::Abhyasa).insert(T::Abhyasta)
        &&& us[i + 1].gana == ts[i + 1].gana
        &&& us[i + 1].number == ts[i + 1].number
        &&& us[i + 1].lakshana == ts[i + 1].lakshana
        &&& is_third(us[i + 2], ts[i], ts[i + 1])
        &&& forall|m: int| i + 2 <= m < ts.len() ==> us[m + 1] == ts[m]
    } else if c == 2 {
        &&& us.len() == ts.len() + 1
        &&& forall|m: int| 0 <= m < i ==> us[m] == ts[m]
        &&& us[i].u is None
        &&& us[i].text@ == ts[i].text@
        &&& us[i].tags@ == set![T::Abhyasa, T::Abhyasta]
        &&& us[i].gana is None
        &&& us[i].number is None
        &&& us[i].lakshana@.len() == 0
        &&& with_tag(ts[i], us[i + 1], T::Abhyasta)
        &&& if u_in(ts[i + 1], ni_list()) {
            with_tag(ts[i + 1], us[i + 2], T::Abhyasta)
        } else {
            us[i + 2] == ts[i + 1]
        }
        &&& forall|m: int| i + 2 <= m < ts.len() ==> us[m + 1] == ts[m]
    } else {
        us == ts
    }
}

/// Adds `tag` to the term at `k`, which is there.
fn tag_term(p: &mut Prakriya, k: usize, tag: T)
    requires
        k < old(p).terms_seq().len(),
    ensures
        Prakriya::same_but_terms(*old(p), *final(p)),
        final(p).terms_seq() == old(p).terms_seq().update(k as int, final(p).terms_seq()[k as int]),
        with_tag(old(p).terms_seq()[k as int], final(p).terms_seq()[k as int], tag),
{
    if let Some(t) = p.get_mut(k) {
        t.add_tag(tag);
    }
}

/// Removes the `n`, `d` and `r` that start a conjunct at the start of `x` (6.1.3).
fn without_ndr(x: &str) -> (r: String)
    ensures
        r@ == drop_ndr(x@),
{
    let mut y = strings::string_from(x);
    loop
        invariant
            drop_ndr(y@) == drop_ndr(x@),
        decreases y@.len(),
    {
        let n = y.as_str().unicode_len();
        if !sounds::is_samyogadi(y.as_str()) {
            return y;
        }
        let c = y.as_str().get_char(0);
        if !(c == 'n' || c == 'd' || c == 'r') {
            return y;
        }
        y = strings::substring(y.as_str(), 1, n);
    }
}

/// Doubles the dhatu at `i` by the rule `rule`, as `doubled` says. Returns `None`, and changes
/// nothing, where the dhatu has no text or no term follows it.
fn do_dvitva(rule: Rule, p: &mut Prakriya, i: usize) -> (r: Option<()>)
    ensures
        Prakriya::rewrote(*old(p), *final(p)),
        r is Some <==> (i + 1 < old(p).terms_seq().len() && old(p).terms_seq()[i as int].text@.len()
            > 0),
        r is None ==> final(p).terms_seq() == old(p).terms_seq(),
        r is Some ==> doubled(old(p).terms_seq(), final(p).terms_seq(), i as int),
        r is Some && dvitva_case(old(p).terms_seq(), i as int) == 2 && old(p).cfg().log_steps
            ==> final(p).steps()[old(p).steps().len() as int].rule == rule,
{
    let ghost p0 = *p;
    let ghost ts = p.terms_seq();
    proof {
        lemma_rewrote_refl(p0);
    }
    let n = p.terms().len();
    if n == 0 || i >= n - 1 {
        return None;
    }
    let dhatu = &p.terms()[i];
    let next = &p.terms()[i + 1];
    let adi = match dhatu.adi() {
        Some(c) => c,
        None => return None,
    };
    let dn = dhatu.text.as_str().unicode_len();
    let antya = dhatu.text.as_str().get_char(dn - 1);
    let ni_arr = ["Ric", "RiN"];
    assert(ni_arr@ =~= ni_list());
    if sounds::is_ac(adi) && sounds::is_hal(antya) && next.has_u_in(&ni_arr) {
        // Case 1: starts with a vowel, and a Ni-pratyaya follows: the vowel and the Ni make up
        // the doubled part, e.g. anj + i -> an + ji + j.
        let i_ni = i + 1;
        let rest = strings::substring(dhatu.text.as_str(), 1, dn);
        let joined = strings::concat(rest.as_str(), next.text.as_str());
        // 6.1.3 na ndrAH saMyogAdayaH
        let text = without_ndr(joined.as_str());
        let mut third = Term::make_text(text.as_str());
        if next.has_u("Ric") {
            third.u = Some(strings::string_from("Ric"));
        } else {
            third.u = Some(strings::string_from("RiN"));
        }
        third.add_tag(T::Dhatu);
        p.insert_after(i_ni, third);
        let ghost p1 = *p;
        tag_term(p, i_ni, T::Abhyasa);
        let ghost p2 = *p;
        p.step("6.1.4");
        let ghost p3 = *p;
        tag_term(p, i, T::Abhyasta);
        tag_term(p, i_ni, T::Abhyasta);
        tag_term(p, i_ni + 1, T::Abhyasta);
        let ghost p4 = *p;
        p.step("6.1.5");
        proof {
            assert(p1.steps().subrange(0, p1.steps().len() as int) =~= p1.steps());
            lemma_rewrote_trans(p0, p1, p2);
            lemma_rewrote_trans(p0, p2, p3);
            assert(p4.steps().subrange(0, p4.steps().len() as int) =~= p4.steps());
            lemma_rewrote_trans(p0, p3, p4);
            lemma_rewrote_trans(p0, p4, *p);
            assert(ts[i as int + 1].u_is("Ric"@) || ts[i as int + 1].u_is("RiN"@));
            assert(set![T::Dhatu].insert(T::Abhyasta) =~= set![T::Dhatu, T::Abhyasta]);
            assert(rest@ =~= ts[i as int].text@.drop_first());
        }
        Some(())
    } else if filters::is_eka_ac(dhatu) || sounds::is_hal(adi) {
        // Case 2: a copy of the dhatu comes before it.
        let abhyasa = Term::make_text(dhatu.text.as_str());
        let tagged_ni = next.has_u_in(&ni_arr);
        p.insert_before(i, abhyasa);
        let ghost p1 = *p;
        p.step(rule);
        let ghost p2 = *p;
        tag_term(p, i, T::Abhyasa);
        let ghost p3 = *p;
        p.step("6.1.4");
        let ghost p4 = *p;
        tag_term(p, i, T::Abhyasta);
        tag_term(p, i + 1, T::Abhyasta);
        if tagged_ni {
            tag_term(p, i + 2, T::Abhyasta);
        }
        let ghost p5 = *p;
        p.step("6.1.5");
        proof {
            assert(p1.steps().subrange(0, p1.steps().len() as int) =~= p1.steps());
            lemma_rewrote_trans(p0, p1, p2);
            assert(p3.steps().subrange(0, p3.steps().len() as int) =~= p3.steps());
            lemma_rewrote_trans(p0, p2, p3);
            lemma_rewrote_trans(p0, p3, p4);
            assert(p5.steps().subrange(0, p5.steps().len() as int) =~= p5.steps());
            lemma_rewrote_trans(p0, p4, p5);
            lemma_rewrote_trans(p0, p5, *p);
            assert(Set::<T>::empty().insert(T::Abhyasa).insert(T::Abhyasta) =~= set![
                T::Abhyasa,
                T::Abhyasta,
            ]);
            if p0.cfg().log_steps {
                assert(p.steps()[p0.steps().len() as int] == p.steps().subrange(
                    0,
                    p2.steps().len() as int,
                )[p0.steps().len() as int]);
            }
        }
        Some(())
    } else {
        Some(())
    }
}


/// Whether dvitva can still double `t`: a dhatu that is not yet abhyasta and not a pratyaya (a
/// sanadi pratyaya is also termed dhatu).
pub open spec fn doublable(t: Term) -> bool {
    t.tagged(T::Dhatu) && !t.tagged(T::Abhyasta) && !t.tagged(T::Pratyaya)
}

fn is_can(t: &Term) -> (b: bool)
    ensures
        b == t.u_is("caN"@),
{
    t.has_u("caN")
}

fn is_doublable(t: &Term) -> (b: bool)
    ensures
        b == doublable(*t),
{
    t.has_tag(T::Dhatu) && !t.has_tag(T::Abhyasta) && !t.has_tag(T::Pratyaya)
}

/// The index of the last term of `ts` that dvitva can double; -1 where there is none.
pub open spec fn last_doublable(ts: Seq<Term>) -> int
    decreases ts.len(),
{
    if ts.len() == 0 {
        -1
    } else if doublable(ts.last()) {
        ts.len() - 1
    } else {
        last_doublable(ts.drop_last())
    }
}

proof fn lemma_last_doublable(ts: Seq<Term>, r: Option<usize>)
    requires
        r matches Some(i) ==> i < ts.len() && doublable(ts[i as int]) && forall|j: int|
            i < j < ts.len() ==> !doublable(#[trigger] ts[j]),
        r is None ==> forall|j: int| 0 <= j < ts.len() ==> !doublable(#[trigger] ts[j]),
    ensures
        r matches Some(i) ==> last_doublable(ts) == i,
        r is None ==> last_doublable(ts) == -1,
    decreases ts.len(),
{
    if ts.len() > 0 {
        let init = ts.drop_last();
        if !doublable(ts.last()) {
            assert(ts.last() == ts[ts.len() - 1]);
            let r2: Option<usize> = match r {
                Some(i) => if (i as int) < init.len() {
                    Some(i)
                } else {
                    None
                },
                None => None,
            };
            if let Some(i) = r {
                assert((i as int) < init.len());
                assert forall|j: int| i < j < init.len() implies !doublable(#[trigger] init[j]) by {
                    assert(init[j] == ts[j]);
                }
            } else {
                assert forall|j: int| 0 <= j < init.len() implies !doublable(#[trigger] init[j]) by {
                    assert(init[j] == ts[j]);
                }
            }
            lemma_last_doublable(init, r2);
        } else {
            assert(ts.last() == ts[ts.len() - 1]);
        }
    }
}

/// The dhatus that 6.1.6 terms abhyasta of themselves.
pub open spec fn jaksh_adi() -> Seq<&'static str> {
    seq!["jakz", "jAgf", "daridrA", "cakAs", "SAs", "dIDI", "vevI"]
}

/// Whether `us` are the terms `ts` after 6.1.6 (jakzityAdayaH zaw) on the dhatu at `i`: the
/// dhatus of `jaksh_adi` are termed abhyasta; they can still be doubled, since the rules of
/// dvitva speak of a dhatu without an abhyasa (6.1.8).
pub open spec fn after_6_1_6(ts: Seq<Term>, us: Seq<Term>, i: int) -> bool {
    if seq_has_str(jaksh_adi(), ts[i].text@) {
        us == ts.update(i, us[i]) && with_tag(ts[i], us[i], T::Abhyasta)
    } else {
        us == ts
    }
}

/// The rule that doubles the dhatu at `i` of `ts`, which a term follows: 6.1.8 (liTi
/// DAtor anabhyAsasya) where the last term comes from liT, but for `de\N`, which 7.4.9 replaces
/// with `digi`; 6.1.9 before `san` or `yaN`; 6.1.10 before Slu; 6.1.11 where `caN` follows later.
pub open spec fn dvitva_rule(ts: Seq<Term>, i: int) -> Option<Seq<char>> {
    if strings_have(ts.last().lakshana@, "li~w"@) {
        if ts[i].u_is("de\\N"@) {
            None
        } else {
            Some("6.1.8"@)
        }
    } else if u_in(ts[i + 1], seq!["san", "yaN"]) {
        Some("6.1.9"@)
    } else if ts[i + 1].tagged(T::Slu) {
        Some("6.1.10"@)
    } else if exists|j: int| i < j < ts.len() && (#[trigger] ts[j]).u_is("caN"@) {
        Some("6.1.11"@)
    } else {
        None
    }
}

/// Whether `us` are the terms `ts` after the rules of dvitva on the dhatu at `i`, which a term
/// follows: 7.4.9 (dayater digi liTi) for `de\N` before liT, else the doubling of `doubled` where
/// `dvitva_rule` names a rule and the dhatu has a text.
pub open spec fn dvitva_applied(ts: Seq<Term>, us: Seq<Term>, i: int) -> bool {
    if strings_have(ts.last().lakshana@, "li~w"@) && ts[i].u_is("de\\N"@) {
        &&& us == ts.update(i, us[i])
        &&& us[i].text@ == "digi"@
        &&& same_but_text(ts[i], us[i])
    } else if dvitva_rule(ts, i) is Some && ts[i].text@.len() > 0 {
        doubled(ts, us, i)
    } else {
        us == ts
    }
}

/// The rules that call for dvitva double the dhatu that dvitva takes (`last_doublable`): 6.1.8
/// where the last term comes from liT, 6.1.9 before `san` or `yaN`, 6.1.10 (ślau) where the
/// next term is tagged Slu (the luk of Sap in the third gana, 2.4.75), and 6.1.11 where `caN`
/// follows later. For the terms `ts1` after 6.1.6 and the result `us` that `run` states, the
/// dhatu is doubled as `doubled` says, so where the dhatu doubles at all (`dvitva_case` other
/// than 0) one term more stands, an abhyasa, and the dhatu is termed abhyasta. Only 7.4.9 for
/// `de\N` before liT takes precedence.
pub proof fn lemma_doubled_where_a_rule_calls(ts: Seq<Term>, ts1: Seq<Term>, us: Seq<Term>, i: int)
    requires
        i == last_doublable(ts),
        0 <= i,
        i + 1 < ts.len(),
        strings_have(ts.last().lakshana@, "li~w"@) || u_in(ts[i + 1], seq!["san", "yaN"])
            || ts[i + 1].tagged(T::Slu) || exists|j: int|
            i < j < ts.len() && (#[trigger] ts[j]).u_is("caN"@),
        ts[i].text@.len() > 0,
        !(strings_have(ts.last().lakshana@, "li~w"@) && ts[i].u_is("de\\N"@)),
        after_6_1_6(ts, ts1, i),
        dvitva_applied(ts1, us, i),
    ensures
        doubled(ts1, us, i),
        dvitva_case(ts, i) != 0 ==> us.len() == ts.len() + 1 && us[i + 1].tagged(T::Abhyasta)
            && (us[i].tagged(T::Abhyasa) || us[i + 1].tagged(T::Abhyasa)),
{
    assert(ts1.len() == ts.len());
    assert(ts1[i + 1] == ts[i + 1]);
    assert(ts1.last() == ts.last());
    assert(ts1[i].text == ts[i].text && ts1[i].u == ts[i].u);
    if exists|j: int| i < j < ts.len() && (#[trigger] ts[j]).u_is("caN"@) {
        let j = choose|j: int| i < j < ts.len() && (#[trigger] ts[j]).u_is("caN"@);
        assert(ts1[j] == ts[j]);
    }
    assert(dvitva_rule(ts1, i) is Some);
    assert(dvitva_case(ts1, i) == dvitva_case(ts, i));
    if dvitva_case(ts, i) == 1 {
        assert(us[i + 1].tags@.contains(T::Abhyasta));
    } else if dvitva_case(ts, i) == 2 {
        assert(us[i].tags@.contains(T::Abhyasa));
        assert(us[i + 1].tags@ == ts1[i].tags@.insert(T::Abhyasta));
    }
}

/// Runs the rules of dvitva on the last dhatu that can be doubled (`last_doublable`): 6.1.6
/// first, then the rule of `dvitva_rule`, as `dvitva_applied` says. Returns `None`, where there
/// is no such dhatu or no term follows it.
pub fn run(p: &mut Prakriya) -> (r: Option<()>)
    ensures
        Prakriya::rewrote(*old(p), *final(p)),
        last_doublable(old(p).terms_seq()) == -1 ==> r is None && *final(p) == *old(p),
        last_doublable(old(p).terms_seq()) != -1 ==> exists|ts1: Seq<Term>|
            #[trigger] after_6_1_6(old(p).terms_seq(), ts1, last_doublable(old(p).terms_seq())) && if last_doublable(
                old(p).terms_seq(),
            ) + 1 < old(p).terms_seq().len() {
                r is Some && dvitva_applied(
                    ts1,
                    final(p).terms_seq(),
                    last_doublable(old(p).terms_seq()),
                )
            } else {
                r is None && final(p).terms_seq() == ts1
            },
{
    let ghost p0 = *p;
    let ghost ts = p.terms_seq();
    proof {
        lemma_rewrote_refl(p0);
    }
    let found = p.find_last_where(is_doublable);
    proof {
        lemma_last_doublable(ts, found);
    }
    let i = match found {
        Some(i) => i,
        None => return None,
    };
    let jaksh = ["jakz", "jAgf", "daridrA", "cakAs", "SAs", "dIDI", "vevI"];
    assert(jaksh@ =~= jaksh_adi());
    if p.terms()[i].has_text_in(&jaksh) {
        // These are termed abhyasta, but they can still undergo dvitva because the rules below
        // are conditioned specifically on "anabhyAsasya" ("not having an abhyasa") from 6.1.8.
        tag_term(p, i, T::Abhyasta);
        let ghost q = *p;
        p.step("6.1.6");
        proof {
            assert(q.steps().subrange(0, q.steps().len() as int) =~= q.steps());
            lemma_rewrote_trans(p0, q, *p);
        }
    }
    let ghost p1 = *p;
    let ghost ts1 = p.terms_seq();
    assert(after_6_1_6(ts, ts1, i as int));
    let n = p.terms().len();
    if n == 0 || i >= n - 1 {
        return None;
    }
    let last = &p.terms()[n - 1];
    assert(*last == ts1.last());
    let san_yan = ["san", "yaN"];
    assert(san_yan@ =~= seq!["san", "yaN"]);
    if last.has_lakshana("li~w") {
        // kAshikA:
        //   dayateḥ iti dīṅo grahaṇaṃ na tu daya dāne ityasya.
        //   digyādeśena dvirvacanasya bādhanam iṣyate.
        if p.terms()[i].has_u("de\\N") {
            p.op_term("7.4.9", i, crate::operators::text("digi"));
            proof {
                let q = *p;
                assert(q.steps().subrange(0, p1.steps().len() as int) == p1.steps());
                lemma_rewrote_trans(p0, p1, *p);
            }
        } else {
            do_dvitva("6.1.8", p, i);
            proof {
                lemma_rewrote_trans(p0, p1, *p);
            }
        }
    } else if p.terms()[i + 1].has_u_in(&san_yan) {
        do_dvitva("6.1.9", p, i);
        proof {
            lemma_rewrote_trans(p0, p1, *p);
        }
    } else if p.terms()[i + 1].has_tag(T::Slu) {
        do_dvitva("6.1.10", p, i);
        proof {
            lemma_rewrote_trans(p0, p1, *p);
        }
    } else {
        let c = p.find_next_where(i, is_can);
        if c.is_some() {
            do_dvitva("6.1.11", p, i);
            proof {
                lemma_rewrote_trans(p0, p1, *p);
            }
        } else {
            proof {
                assert forall|j: int| i < j < ts1.len() implies !(#[trigger] ts1[j]).u_is("caN"@) by {
                    assert(call_ensures(is_can, (&ts1[j],), false));
                }
            }
        }
    }
    Some(())
}

} // verus!
