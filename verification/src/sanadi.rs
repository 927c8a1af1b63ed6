//! Adds the sanadi pratyayas that some dhatus take of themselves (3.1.5 - 3.1.32).
use crate::ardhadhatuka::{first_tagged, lemma_find_first};
use crate::constants::{La, PrakriyaError, Tag as T};
use crate::it_samjna;
use crate::it_samjna::it_samjna_outcome;
use crate::la_karya::pratyaya_added;
use crate::prakriya::{allows, lemma_rewrote_refl, lemma_rewrote_trans, Prakriya, Rule, RuleChoice};
use crate::term::{seq_has_str, Term};
use vstd::prelude::*;

verus! {

/// Whether the upadesha of `t` is one of `items`.
pub open spec fn u_in(t: Term, items: Seq<&'static str>) -> bool {
    t.u matches Some(x) && seq_has_str(items, x@)
}

/// The dhatus that take `san` by 3.1.5 where they are of the first gana.
pub open spec fn gupadi() -> Seq<&'static str> {
    seq!["gupa~\\", "tija~\\", "kita~"]
}

/// The dhatus that take `san` with a long abhyasa (3.1.6).
pub open spec fn man_badha() -> Seq<&'static str> {
    seq!["mAna~\\", "baDa~\\", "dAna~^", "SAna~^"]
}

/// The dhatus whose pratyaya of 3.1.28 - 3.1.30 is optional before an ardhadhatuka (3.1.31).
pub open spec fn ayadaya() -> Seq<&'static str> {
    seq!["gupU~", "DUpa~", "vicCa~", "paRa~\\", "pana~\\", "fti", "kamu~\\"]
}

/// The dhatus that take `Aya` (3.1.28).
pub open spec fn aya_dhatus() -> Seq<&'static str> {
    seq!["gupU~", "DUpa~", "vicCa~", "paRa~\\", "pana~\\"]
}

/// Whether 3.1.31 is in question for the dhatu `t` before the lakara `la`: `t` is one of
/// `ayadaya`, none of the rules before applies to it, and `la` is ardhadhatuka.
pub open spec fn asks_3_1_31(t: Term, la: La) -> bool {
    &&& !(u_in(t, gupadi()) && t.gana == Some(1i32))
    &&& !u_in(t, man_badha())
    &&& t.gana != Some(10i32)
    &&& u_in(t, ayadaya())
    &&& !la.spec_is_sarvadhatuka()
}

/// The sanadi pratyaya that the dhatu `t` takes of itself, where `blocked` says that 3.1.31 keeps
/// the pratyaya of 3.1.28 - 3.1.30 away: the rule, the upadesha, and whether the pratyaya is
/// kept from being ardhadhatuka. `san` for `gup`, `tij` and `kit` of the first gana (3.1.5) and
/// for `mAn`, `baD`, `dAn` and `SAn` (3.1.6); `Ric` for the dhatus of the tenth gana (3.1.25);
/// `Aya` (3.1.28), `IyaN` (3.1.29) and `RiN` (3.1.30) for the `ayadaya`.
pub open spec fn sanadi_for(t: Term, blocked: bool) -> Option<(Seq<char>, Seq<char>, bool)> {
    if u_in(t, gupadi()) && t.gana == Some(1i32) {
        Some(("3.1.5"@, "san"@, true))
    } else if u_in(t, man_badha()) {
        Some(("3.1.6"@, "san"@, true))
    } else if t.gana == Some(10i32) {
        Some(("3.1.25"@, "Ric"@, false))
    } else if u_in(t, ayadaya()) && !blocked {
        if u_in(t, aya_dhatus()) {
            Some(("3.1.28"@, "Aya"@, false))
        } else if t.u_is("fti"@) {
            Some(("3.1.29"@, "IyaN"@, false))
        } else {
            Some(("3.1.30"@, "RiN"@, false))
        }
    } else {
        None
    }
}

/// Whether `t` is a sanadi pratyaya made from the upadesha `v`, termed dhatu (3.1.32), after the
/// it-samjna rules; `flagged` says that it is kept from being ardhadhatuka.
pub open spec fn sanadi_term(t: Term, v: Seq<char>, flagged: bool) -> bool {
    let res = it_samjna_outcome(v, v, set![T::Pratyaya, T::Dhatu]);
    &&& t.u_is(v)
    &&& t.text@ == res.0
    &&& t.tags@ == if flagged {
        res.1.insert(T::FlagNoArdhadhatuka)
    } else {
        res.1
    }
    &&& t.gana is None
    &&& t.number is None
    &&& t.lakshana@.len() == 0
}

/// Inserts the pratyaya `upadesha` right after `index` by the rule `rule`, terms it dhatu
/// (3.1.32) and runs the it-samjna rules on it.
fn add_sanadi(rule: Rule, p: &mut Prakriya, index: usize, upadesha: &str) -> (r: Result<
    (),
    PrakriyaError,
>)
    requires
        index < old(p).terms_seq().len(),
    ensures
        pratyaya_added(
            *old(p),
            *final(p),
            index as int,
            rule@,
            upadesha@,
            set![T::Pratyaya, T::Dhatu],
            r is Ok,
        ),
{
    let ghost p0 = *p;
    let mut pratyaya = Term::make_upadesha(upadesha);
    pratyaya.add_tag(T::Pratyaya);
    p.insert_after(index, pratyaya);
    let n = p.terms().len();
    assert(index + 1 < n);
    let ghost p1 = *p;
    p.step(rule);
    let ghost p2 = *p;
    // 3.1.32 sanAdyantA DAtavaH
    if let Some(t) = p.get_mut(index + 1) {
        t.add_tag(T::Dhatu);
    }
    let ghost p3 = *p;
    p.step("3.1.32");
    let ghost p4 = *p;
    proof {
        lemma_rewrote_refl(p0);
        assert(p1.steps().subrange(0, p1.steps().len() as int) =~= p1.steps());
        lemma_rewrote_trans(p0, p1, p2);
        assert(p3.steps().subrange(0, p3.steps().len() as int) =~= p3.steps());
        lemma_rewrote_trans(p0, p2, p3);
        lemma_rewrote_trans(p0, p3, p4);
        assert(p4.terms_seq()[index + 1].tags@ =~= set![T::Pratyaya, T::Dhatu]);
        assert(it_samjna::has_upadesha_at(p4, index + 1));
    }
    let r = it_samjna::run(p, index + 1);
    proof {
        lemma_rewrote_trans(p0, p4, *p);
        assert(p.terms_seq() =~= p0.terms_seq().insert(index + 1, p.terms_seq()[index + 1]));
        if p0.cfg().log_steps {
            assert(p.steps()[p0.steps().len() as int] == p.steps().subrange(
                0,
                p2.steps().len() as int,
            )[p0.steps().len() as int]);
        }
    }
    r
}

/// Adds, after the first dhatu, the sanadi pratyaya that it takes of itself (`sanadi_for`),
/// where 3.1.31 asks the rule choices whether the pratyaya of 3.1.28 - 3.1.30 stays away before
/// the ardhadhatuka lakara `la`. The `san` of 3.1.5 and 3.1.6 is kept from being ardhadhatuka
/// once the it-samjna rules have run on it. Where there is no dhatu, nothing changes. Returns
/// the error of the it-samjna rules, if they cannot run to the end.
pub fn run(p: &mut Prakriya, la: La) -> (r: Result<(), PrakriyaError>)
    ensures
        first_tagged(old(p).terms_seq(), T::Dhatu) == -1 ==> r is Ok && *final(p) == *old(p),
        first_tagged(old(p).terms_seq(), T::Dhatu) != -1 ==> {
            let i = first_tagged(old(p).terms_seq(), T::Dhatu);
            let t = old(p).terms_seq()[i];
            let asks = asks_3_1_31(t, la);
            let allowed = allows(old(p).cfg().rule_choices@, "3.1.31"@);
            &&& final(p).tag_set() == old(p).tag_set()
            &&& final(p).cfg() == old(p).cfg()
            &&& final(p).decisions() == if !asks {
                old(p).decisions()
            } else if allowed {
                old(p).decisions().push(RuleChoice::Accept("3.1.31"))
            } else {
                old(p).decisions().push(RuleChoice::Decline("3.1.31"))
            }
            &&& old(p).steps().len() <= final(p).steps().len()
            &&& final(p).steps().subrange(0, old(p).steps().len() as int) == old(p).steps()
            &&& match sanadi_for(t, asks && allowed) {
                None => r is Ok && final(p).terms_seq() == old(p).terms_seq(),
                Some(x) => {
                    &&& final(p).terms_seq() == old(p).terms_seq().insert(
                        i + 1,
                        final(p).terms_seq()[i + 1],
                    )
                    &&& sanadi_term(final(p).terms_seq()[i + 1], x.1, x.2 && r is Ok)
                    &&& (r is Ok <==> it_samjna_outcome(x.1, x.1, set![T::Pratyaya, T::Dhatu]).2)
                    &&& (old(p).cfg().log_steps ==> final(p).steps()[old(p).steps().len() as int].rule@
                        == x.0)
                },
            }
        },
{
    let ghost p0 = *p;
    let ghost ts = p.terms_seq();
    let found = p.find_first(T::Dhatu);
    proof {
        lemma_find_first(ts, T::Dhatu, found);
    }
    let i = match found {
        Some(i) => i,
        None => return Ok(()),
    };
    let gupadi_list = ["gupa~\\", "tija~\\", "kita~"];
    // These dhatus use san-pratyaya with a long abhyAsa.
    let man_badha_list = ["mAna~\\", "baDa~\\", "dAna~^", "SAna~^"];
    // These dhatus use their pratyaya optionally if followed by ArdhadhAtuka.
    let ayadaya_list = ["gupU~", "DUpa~", "vicCa~", "paRa~\\", "pana~\\", "fti", "kamu~\\"];
    let aya_list = ["gupU~", "DUpa~", "vicCa~", "paRa~\\", "pana~\\"];
    proof {
        assert(gupadi_list@ =~= gupadi());
        assert(man_badha_list@ =~= man_badha());
        assert(ayadaya_list@ =~= ayadaya());
        assert(aya_list@ =~= aya_dhatus());
    }
    let t = &p.terms()[i];
    // `gana` is required so that we can exclude "03.0021 kita~".
    let is_gupadi = t.has_u_in(&gupadi_list) && t.has_gana(1);
    let is_man_badha = t.has_u_in(&man_badha_list);
    let is_curadi = t.has_gana(10);
    let is_ayadaya = t.has_u_in(&ayadaya_list);
    let is_aya = t.has_u_in(&aya_list);
    let is_rti = t.has_u("fti");
    if is_gupadi || is_man_badha {
        let rule = if is_gupadi {
            "3.1.5"
        } else {
            "3.1.6"
        };
        let r = add_sanadi(rule, p, i, "san");
        let n = p.terms().len();
        assert(i + 1 < n);
        if r.is_ok() {
            if let Some(t) = p.get_mut(i + 1) {
                t.add_tag(T::FlagNoArdhadhatuka);
            }
        }
        proof {
            if r is Ok {
                assert(p.terms_seq() =~= p0.terms_seq().insert(i + 1, p.terms_seq()[i + 1]));
            }
        }
        return r;
    } else if is_curadi {
        return add_sanadi("3.1.25", p, i, "Ric");
    } else if is_ayadaya {
        let mut add_pratyaya = true;
        if la.is_ardhadhatuka() {
            if p.is_allowed("3.1.31") {
                add_pratyaya = false;
                let ghost q = *p;
                p.step("3.1.31");
                proof {
                    assert(p.steps().subrange(0, p0.steps().len() as int) =~= q.steps().subrange(
                        0,
                        p0.steps().len() as int,
                    ));
                }
            } else {
                p.decline("3.1.31");
            }
        }
        if add_pratyaya {
            let ghost q = *p;
            let r = if is_aya {
                add_sanadi("3.1.28", p, i, "Aya")
            } else if is_rti {
                add_sanadi("3.1.29", p, i, "IyaN")
            } else {
                add_sanadi("3.1.30", p, i, "RiN")
            };
            proof {
                assert(p.steps().subrange(0, p0.steps().len() as int) =~= p.steps().subrange(
                    0,
                    q.steps().len() as int,
                ).subrange(0, p0.steps().len() as int));
            }
            return r;
        }
    }
    proof {
        assert(p.steps().subrange(0, p0.steps().len() as int) =~= p.steps().subrange(
            0,
            p0.steps().len() as int,
        ));
    }
    Ok(())
}

} // verus!
