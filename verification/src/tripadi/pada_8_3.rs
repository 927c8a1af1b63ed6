//! Rules of 8.3 that make sounds murdhanya.
use crate::constants::Tag as T;
use crate::operations::{replace_adi, replace_antya, same_but_text};
use crate::prakriya::{allows, Prakriya};
use crate::sounds;
use crate::sounds::{lemma_one_word, lemma_two_words, spec_s, valid_sound_list};
use crate::term::{next_nonempty, strings_have, Term};
use crate::tripadi::pada_8_2::{
    in_ku, next_text, xy_done, xy_rule, xy_rule_next, NextPass, PassXy,
};
use vstd::prelude::*;

verus! {

pub(crate) proof fn lemma_in_ku()
    ensures
        valid_sound_list("iR2 ku~"@),
        valid_sound_list("iR2"@),
{
    reveal_strlit("iR2 ku~");
    reveal_strlit("iR2");
    let a = seq!['i', 'R', '2'];
    let b = seq!['k', 'u', '~'];
    assert("iR2 ku~"@ =~= a + seq![' '] + b);
    lemma_two_words(a, b);
    lemma_one_word("iR2"@);
    reveal_with_fuel(crate::sounds::sutra_with, 2);
    assert(crate::sounds::sutra_with('i', 0) < 14);
}

/// Whether `t` is one of the dhatus of 8.3.60 (śāsivasighasīnāṃ ca).
pub open spec fn is_shas_vas_ghas(t: Term) -> bool {
    t.u_is("va\\sa~"@) || t.u_is("SAsu~"@) || t.u_is("Gasx~"@)
}

/// Whether 8.3.60 applies to term `i` of `ts`: one of its dhatus that ends in `s` after a sound
/// of `iR2` or `ku~`, or that is just `s`, while some term after it has text.
pub open spec fn sas_to_sha_applies(ts: Seq<Term>, i: int) -> bool {
    let t = ts[i].text@;
    &&& next_nonempty(ts, i + 1) != -1
    &&& is_shas_vas_ghas(ts[i])
    &&& (t.len() >= 2 && in_ku().contains(t[t.len() - 2]) && t.last() == 's') || t == "s"@
}

/// Whether term `i` of `us` is term `i` of `ts` after 8.3.60.
pub open spec fn sas_to_sha_done(ts: Seq<Term>, us: Seq<Term>, i: int) -> bool {
    &&& same_but_text(ts[i], us[i])
    &&& us[i].text@ == if sas_to_sha_applies(ts, i) {
        replace_antya(ts[i].text@, "z"@)
    } else {
        ts[i].text@
    }
}

/// Whether the terms `ts` become `a` by 8.3.59 and `a` become `us` by 8.3.60.
pub open spec fn murdhanya_s_done(ts: Seq<Term>, a: Seq<Term>, us: Seq<Term>) -> bool {
    &&& a.len() == ts.len()
    &&& us.len() == ts.len()
    &&& forall|k: int|
        0 <= k < ts.len() ==> same_but_text(ts[k], #[trigger] a[k]) && a[k].text@ == next_text(
            NextPass::SaToSha,
            ts,
            k,
        )
    &&& forall|k: int| 0 <= k < ts.len() ==> #[trigger] sas_to_sha_done(a, us, k)
}

/// Makes `s` murdhanya: the `s` that begins a pratyaya or substitute after a sound of `iR2` or
/// `ku~` (8.3.59, ādeśapratyayayoḥ), and the final `s` of `SAs`, `vas` and `Gas` after such a
/// sound (8.3.60, śāsivasighasīnāṃ ca).
pub fn try_murdhanya_for_s(p: &mut Prakriya) -> (r: Option<()>)
    requires
        old(p).terms_seq().len() >= 1,
    ensures
        r is Some,
        Prakriya::rewrote(*old(p), *final(p)),
        final(p).terms_seq().len() == old(p).terms_seq().len(),
        exists|a: Seq<Term>| #[trigger] murdhanya_s_done(old(p).terms_seq(), a, final(p).terms_seq()),
{
    proof {
        lemma_in_ku();
        reveal_strlit("s");
        reveal_strlit("z");
    }
    let in_ku_set = sounds::s("iR2 ku~");
    let ghost p0 = *p;
    xy_rule_next(p, NextPass::SaToSha, &in_ku_set);
    let ghost p1 = *p;
    xy_rule(p, PassXy::SasToSha, &in_ku_set);
    proof {
        crate::prakriya::lemma_rewrote_trans(p0, p1, *p);
        let a = p1.terms_seq();
        assert forall|k: int| 0 <= k < a.len() implies #[trigger] sas_to_sha_done(a, p.terms_seq(), k) by {
            assert(xy_done(PassXy::SasToSha, a, p.terms_seq(), k));
        }
        assert(murdhanya_s_done(p0.terms_seq(), a, p.terms_seq()));
    }
    Some(())
}

/// The index of the last term at `j` or before that has text and is not `sIyu~w`; -1 where
/// there is none.
pub open spec fn prev_for_dha(ts: Seq<Term>, j: int) -> int
    decreases j + 1,
{
    if j < 0 || j >= ts.len() {
        -1
    } else if ts[j].text@.len() > 0 && !ts[j].u_is("sIyu~w"@) {
        j
    } else {
        prev_for_dha(ts, j - 1)
    }
}

/// The sounds of the pratyahara `iR2`.
pub open spec fn in2() -> Set<char> {
    spec_s("iR2"@)
}

/// Whether 8.3.78 (iṇaḥ ṣīdhvaṃluṅliṭāṃ dho 'ṅgāt) or 8.3.79 (vibhāṣeṭaḥ) is in question for
/// the last term of `ts`: it begins with `D`, it follows `zI` or comes from `lu~N` or `li~w`,
/// and the term before it that counts ends in a sound of `iR2`.
pub open spec fn dha_murdhanya_applies(ts: Seq<Term>) -> bool {
    let n = ts.len();
    let tin = ts[n - 1];
    let k = prev_for_dha(ts, n - 2);
    &&& k != -1
    &&& in2().contains(ts[k].text@.last())
    &&& ts[n - 2].text@ == "zI"@ || strings_have(tin.lakshana@, "lu~N"@) || strings_have(
        tin.lakshana@,
        "li~w"@,
    )
    &&& tin.text@.len() > 0
    &&& tin.text@[0] == 'D'
}

proof fn lemma_prev_for_dha(ts: Seq<Term>, j: int)
    requires
        j < ts.len(),
    ensures
        prev_for_dha(ts, j) == -1 || (0 <= prev_for_dha(ts, j) <= j && ts[prev_for_dha(
            ts,
            j,
        )].text@.len() > 0 && !ts[prev_for_dha(ts, j)].u_is("sIyu~w"@)),
    decreases j + 1,
{
    if 0 <= j && !(ts[j].text@.len() > 0 && !ts[j].u_is("sIyu~w"@)) {
        lemma_prev_for_dha(ts, j - 1);
    }
}

fn counts_for_dha(t: &Term) -> (b: bool)
    ensures
        b == (t.text@.len() > 0 && !t.u_is("sIyu~w"@)),
{
    !crate::filters::empty(t) && !t.has_u("sIyu~w")
}

/// Makes the `D` that begins the last term `Q` after a sound of `iR2` in `zIDvam` and in lu~N and
/// li~w (8.3.78), optionally where that sound is the agama `iw` (8.3.79). Returns `None` where
/// no earlier term counts.
pub fn try_murdhanya_for_dha_in_tinanta(p: &mut Prakriya) -> (r: Option<()>)
    requires
        old(p).terms_seq().len() >= 2,
    ensures
        r is None <==> prev_for_dha(old(p).terms_seq(), old(p).terms_seq().len() - 2) == -1,
        Prakriya::revised(*old(p), *final(p)),
        !dha_murdhanya_applies(old(p).terms_seq()) ==> *final(p) == *old(p),
        dha_murdhanya_applies(old(p).terms_seq()) ==> {
            let ts = old(p).terms_seq();
            let n = ts.len();
            let k = prev_for_dha(ts, n - 2);
            if ts[k].u_is("iw"@) && ts[k].tagged(T::Agama) {
                if allows(old(p).cfg().rule_choices@, "8.3.79"@) {
                    crate::operators::retexted(
                        ts,
                        final(p).terms_seq(),
                        n - 1,
                        replace_adi(ts[n - 1].text@, "Q"@),
                    )
                } else {
                    final(p).terms_seq() == ts
                }
            } else {
                crate::operators::term_rule_applied(
                    *old(p),
                    *final(p),
                    "8.3.78",
                    n - 1,
                    replace_adi(ts[n - 1].text@, "Q"@),
                )
            }
        },
{
    proof {
        lemma_in_ku();
        crate::prakriya::lemma_rewrote_refl(*p);
        crate::prakriya::lemma_rewrote_revised(*p, *p);
    }
    let ghost ts = p.terms_seq();
    let ghost p0 = *p;
    let i = p.terms().len() - 1;
    let tin = &p.terms()[i];
    let dha = tin.has_adi('D');
    let shidhvam_lun_lit = p.terms()[i - 1].has_text("zI") || tin.has_lakshana("lu~N")
        || tin.has_lakshana("li~w");
    let i_prev = match p.find_prev_where(i, counts_for_dha) {
        Some(k) => k,
        None => {
            proof {
                assert forall|k: int| 0 <= k < i implies !((#[trigger] ts[k]).text@.len() > 0 && !ts[k].u_is(
                    "sIyu~w"@,
                )) by {
                    assert(call_ensures(counts_for_dha, (&ts[k],), false));
                }
                lemma_prev_for_dha_none(ts, i - 1);
            }
            return None;
        },
    };
    proof {
        assert forall|k: int| i_prev < k < i implies !((#[trigger] ts[k]).text@.len() > 0 && !ts[k].u_is(
            "sIyu~w"@,
        )) by {
            assert(call_ensures(counts_for_dha, (&ts[k],), false));
        }
        assert(call_ensures(counts_for_dha, (&ts[i_prev as int],), true));
        lemma_prev_for_dha_walk(ts, i_prev as int, i - 1);
    }
    let in2_set = sounds::s("iR2");
    let prev = &p.terms()[i_prev];
    if in2_set.contains_opt(prev.antya()) && shidhvam_lun_lit && dha {
        if crate::filters::is_it_agama(prev) {
            crate::operators::term_adi_optional(p, "8.3.79", i, "Q");
        } else {
            crate::operators::term_adi(p, "8.3.78", i, "Q");
            proof {
                crate::prakriya::lemma_rewrote_revised(p0, *p);
            }
        }
    }
    Some(())
}

proof fn lemma_prev_for_dha_none(ts: Seq<Term>, j: int)
    requires
        j < ts.len(),
        forall|k: int| 0 <= k <= j ==> !((#[trigger] ts[k]).text@.len() > 0 && !ts[k].u_is("sIyu~w"@)),
    ensures
        prev_for_dha(ts, j) == -1,
    decreases j + 1,
{
    if j >= 0 {
        lemma_prev_for_dha_none(ts, j - 1);
    }
}

proof fn lemma_prev_for_dha_walk(ts: Seq<Term>, i: int, j: int)
    requires
        0 <= i <= j < ts.len(),
        ts[i].text@.len() > 0 && !ts[i].u_is("sIyu~w"@),
        forall|k: int| i < k <= j ==> !((#[trigger] ts[k]).text@.len() > 0 && !ts[k].u_is("sIyu~w"@)),
    ensures
        prev_for_dha(ts, j) == i,
    decreases j - i,
{
    if j > i {
        lemma_prev_for_dha_walk(ts, i, j - 1);
    }
}

/// Runs rules that make a sound murdhanya when certain sounds precede (8.3.55 - 8.3.119).
/// Example: `nesyati -> nezyati`.
pub fn try_murdhanya(p: &mut Prakriya)
    requires
        old(p).terms_seq().len() >= 2,
    ensures
        Prakriya::revised(*old(p), *final(p)),
        exists|a: Seq<Term>, b: Prakriya|
            #[trigger] murdhanya_s_done(old(p).terms_seq(), a, b.terms_seq()) && Prakriya::rewrote(
                *old(p),
                b,
            ) && murdhanya_dha_done(b, *final(p)),
{
    let ghost p0 = *p;
    try_murdhanya_for_s(p);
    let ghost p1 = *p;
    try_murdhanya_for_dha_in_tinanta(p);
    proof {
        crate::prakriya::lemma_rewrote_revised(p0, p1);
        crate::prakriya::lemma_revised_trans(p0, p1, *p);
        let a = choose|a: Seq<Term>| #[trigger] murdhanya_s_done(p0.terms_seq(), a, p1.terms_seq());
        assert(murdhanya_s_done(p0.terms_seq(), a, p1.terms_seq()) && Prakriya::rewrote(p0, p1)
            && murdhanya_dha_done(p1, *p));
    }
}

/// Whether `b` is `a` after `try_murdhanya_for_dha_in_tinanta`.
pub open spec fn murdhanya_dha_done(a: Prakriya, b: Prakriya) -> bool {
    let ts = a.terms_seq();
    let n = ts.len();
    let k = prev_for_dha(ts, n - 2);
    &&& Prakriya::revised(a, b)
    &&& !dha_murdhanya_applies(ts) ==> b == a
    &&& dha_murdhanya_applies(ts) ==> if ts[k].u_is("iw"@) && ts[k].tagged(T::Agama) {
        if allows(a.cfg().rule_choices@, "8.3.79"@) {
            crate::operators::retexted(ts, b.terms_seq(), n - 1, replace_adi(ts[n - 1].text@, "Q"@))
        } else {
            b.terms_seq() == ts
        }
    } else {
        crate::operators::term_rule_applied(a, b, "8.3.78", n - 1, replace_adi(ts[n - 1].text@, "Q"@))
    }
}

} // verus!
