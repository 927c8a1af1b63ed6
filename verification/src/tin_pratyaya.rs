//! Rules that replace the lakara with a tin-pratyaya (end of 3.4).
use crate::constants::{La, PrakriyaError, Purusha, Tag as T, Vacana};
use crate::operators::{is_agama_from, replaced_with_upadesha, retexted, upadesha_taken};
use crate::operations::{replace_antya, same_but_text};
use crate::prakriya::{allows, Prakriya, Rule};
use crate::sounds::spec_s;
use crate::term::{seq_has_str, strings_have, Term};
use crate::vikarana::{last_tagged, lemma_find_last};
use vstd::prelude::*;

verus! {

/// The parasmaipada tin ending for `purusha` and `vacana` (3.4.78).
pub open spec fn spec_tin_parasmai(purusha: Purusha, vacana: Vacana) -> Seq<char> {
    match (purusha, vacana) {
        (Purusha::Prathama, Vacana::Eka) => "tip"@,
        (Purusha::Prathama, Vacana::Dvi) => "tas"@,
        (Purusha::Prathama, Vacana::Bahu) => "Ji"@,
        (Purusha::Madhyama, Vacana::Eka) => "sip"@,
        (Purusha::Madhyama, Vacana::Dvi) => "Tas"@,
        (Purusha::Madhyama, Vacana::Bahu) => "Ta"@,
        (Purusha::Uttama, Vacana::Eka) => "mip"@,
        (Purusha::Uttama, Vacana::Dvi) => "vas"@,
        (Purusha::Uttama, Vacana::Bahu) => "mas"@,
    }
}

/// The atmanepada tin ending for `purusha` and `vacana` (3.4.78).
pub open spec fn spec_tin_atmane(purusha: Purusha, vacana: Vacana) -> Seq<char> {
    match (purusha, vacana) {
        (Purusha::Prathama, Vacana::Eka) => "ta"@,
        (Purusha::Prathama, Vacana::Dvi) => "AtAm"@,
        (Purusha::Prathama, Vacana::Bahu) => "Ja"@,
        (Purusha::Madhyama, Vacana::Eka) => "TAs"@,
        (Purusha::Madhyama, Vacana::Dvi) => "ATAm"@,
        (Purusha::Madhyama, Vacana::Bahu) => "Dvam"@,
        (Purusha::Uttama, Vacana::Eka) => "iw"@,
        (Purusha::Uttama, Vacana::Dvi) => "vahi"@,
        (Purusha::Uttama, Vacana::Bahu) => "mahiN"@,
    }
}

/// Returns the parasmaipada tin ending for `purusha` and `vacana`.
pub fn find_tin_parasmai(purusha: Purusha, vacana: Vacana) -> (r: &'static str)
    ensures
        r@ == spec_tin_parasmai(purusha, vacana),
{
    match (purusha, vacana) {
        (Purusha::Prathama, Vacana::Eka) => "tip",
        (Purusha::Prathama, Vacana::Dvi) => "tas",
        (Purusha::Prathama, Vacana::Bahu) => "Ji",
        (Purusha::Madhyama, Vacana::Eka) => "sip",
        (Purusha::Madhyama, Vacana::Dvi) => "Tas",
        (Purusha::Madhyama, Vacana::Bahu) => "Ta",
        (Purusha::Uttama, Vacana::Eka) => "mip",
        (Purusha::Uttama, Vacana::Dvi) => "vas",
        (Purusha::Uttama, Vacana::Bahu) => "mas",
    }
}

/// Returns the atmanepada tin ending for `purusha` and `vacana`.
pub fn find_tin_atmane(purusha: Purusha, vacana: Vacana) -> (r: &'static str)
    ensures
        r@ == spec_tin_atmane(purusha, vacana),
{
    match (purusha, vacana) {
        (Purusha::Prathama, Vacana::Eka) => "ta",
        (Purusha::Prathama, Vacana::Dvi) => "AtAm",
        (Purusha::Prathama, Vacana::Bahu) => "Ja",
        (Purusha::Madhyama, Vacana::Eka) => "TAs",
        (Purusha::Madhyama, Vacana::Dvi) => "ATAm",
        (Purusha::Madhyama, Vacana::Bahu) => "Dvam",
        (Purusha::Uttama, Vacana::Eka) => "iw",
        (Purusha::Uttama, Vacana::Dvi) => "vahi",
        (Purusha::Uttama, Vacana::Bahu) => "mahiN",
    }
}

/// The tag of `purusha`.
pub open spec fn purusha_tag(purusha: Purusha) -> T {
    match purusha {
        Purusha::Prathama => T::Prathama,
        Purusha::Madhyama => T::Madhyama,
        Purusha::Uttama => T::Uttama,
    }
}

/// The tag of `vacana`.
pub open spec fn vacana_tag(vacana: Vacana) -> T {
    match vacana {
        Vacana::Eka => T::Ekavacana,
        Vacana::Dvi => T::Dvivacana,
        Vacana::Bahu => T::Bahuvacana,
    }
}

/// The tin ending that replaces the lakara of a prakriya with the tags `tags`, and the pada
/// tag that goes with it: parasmaipada where the prakriya is parasmaipada, else atmanepada.
pub open spec fn tin_for(tags: Set<T>, purusha: Purusha, vacana: Vacana) -> (Seq<char>, T) {
    if tags.contains(T::Parasmaipada) {
        (spec_tin_parasmai(purusha, vacana), T::Parasmaipada)
    } else {
        (spec_tin_atmane(purusha, vacana), T::Atmanepada)
    }
}

/// Whether `b` is the lakara `a` after 3.4.78: it becomes a vibhakti (1.4.104) with the tags
/// `tags` of the tin, the purusha, the vacana and the pada, takes the upadesha `tin` (as in
/// `took_upadesha`), and loses the Nit that it had from the lakara.
pub open spec fn became_tin(a: Term, b: Term, tin: Seq<char>, tags: Set<T>) -> bool {
    let res = crate::it_samjna::it_samjna_outcome(tin, tin, a.tags@.union(tags));
    &&& b.u_is(tin)
    &&& b.text@ == res.0
    &&& b.tags@ == res.1.remove(T::Nit)
    &&& b.gana == a.gana
    &&& b.number == a.number
    &&& b.lakshana@ == match a.u {
        Some(u) => a.lakshana@.push(u),
        None => a.lakshana@,
    }
}

/// Replaces the lakara, the last pratyaya, with the tin ending for `purusha`, `vacana` and the
/// pada of the prakriya (3.4.78).
pub fn adesha(p: &mut Prakriya, purusha: Purusha, vacana: Vacana)
    requires
        old(p).tag_set().contains(T::Parasmaipada) || old(p).tag_set().contains(T::Atmanepada),
    ensures
        Prakriya::rewrote(*old(p), *final(p)),
        ({
            let ts = old(p).terms_seq();
            let i = last_tagged(ts, T::Pratyaya);
            let (tin, pada) = tin_for(old(p).tag_set(), purusha, vacana);
            &&& i == -1 ==> final(p).terms_seq() == ts
            &&& i != -1 ==> final(p).terms_seq() == ts.update(i, final(p).terms_seq()[i])
                && became_tin(
                ts[i],
                final(p).terms_seq()[i],
                tin,
                set![T::Vibhakti, T::Tin, purusha_tag(purusha), vacana_tag(vacana), pada],
            )
        }),
{
    let ghost p0 = *p;
    proof {
        crate::prakriya::lemma_rewrote_refl(p0);
    }
    let (tin, pada) = if p.has_tag(T::Parasmaipada) {
        (find_tin_parasmai(purusha, vacana), T::Parasmaipada)
    } else {
        (find_tin_atmane(purusha, vacana), T::Atmanepada)
    };
    let ghost ts = p.terms_seq();
    let r = p.find_last(T::Pratyaya);
    proof {
        lemma_find_last(ts, T::Pratyaya, r);
    }
    if let Some(i) = r {
        let ghost tags = set![T::Vibhakti, T::Tin, purusha_tag(purusha), vacana_tag(vacana), pada];
        // 1.4.104
        let new_tags = [T::Vibhakti, T::Tin, purusha.as_tag(), vacana.as_tag(), pada];
        if let Some(t) = p.get_mut(i) {
            t.add_tags(&new_tags);
        }
        proof {
            let a = new_tags@;
            assert(a[0] == T::Vibhakti && a[1] == T::Tin && a[2] == purusha_tag(purusha) && a[3]
                == vacana_tag(vacana) && a[4] == pada);
            assert(a.to_set() =~= tags);
        }
        let ghost p1 = *p;
        crate::operators::adesha("3.4.78", p, i, tin);
        let ghost p2 = *p;
        let ghost m = p2.terms_seq()[i as int];
        // Ignore the Nit-tva that comes from the lakara (Kashika on 3.4.103: lakArAzrayaGitvam
        // AdezAnAM na bhavati), and the N of mahiN, which is only for a pratyahara.
        if p.terms()[i].has_tag(T::Nit) {
            if let Some(t) = p.get_mut(i) {
                t.remove_tag(T::Nit);
            }
        }
        proof {
            assert(Prakriya::rewrote(p0, p1)) by {
                assert(p1.steps().subrange(0, p0.steps().len() as int) =~= p0.steps());
            }
            crate::prakriya::lemma_rewrote_trans(p0, p1, p2);
            crate::prakriya::lemma_rewrote_refl(p2);
            crate::prakriya::lemma_rewrote_trans(p0, p2, *p);
            assert(!m.tags@.contains(T::Nit) ==> m.tags@.remove(T::Nit) =~= m.tags@);
            assert(p.terms_seq() =~= ts.update(i as int, p.terms_seq()[i as int]));
            assert(became_tin(ts[i as int], p.terms_seq()[i as int], tin@, tags));
        }
    }
}

// Lut
// ===
/// The ending that replaces a prathama ending of luT with the vacana tags `tags` (2.4.85).
pub open spec fn lut_ending(tags: Set<T>) -> Seq<char> {
    if tags.contains(T::Ekavacana) {
        "qA"@
    } else if tags.contains(T::Dvivacana) {
        "rO"@
    } else {
        "ras"@
    }
}

/// Whether 2.4.85 replaces the ending at `i`: a prathama ending of luT.
pub open spec fn lut_siddhi_applies(ts: Seq<Term>, i: int, la: La) -> bool {
    0 <= i < ts.len() && ts[i].tagged(T::Prathama) && la == La::Lut
}

/// Replaces a prathama ending of luT with `qA`, `rO` or `ras` (2.4.85). Returns whether it did.
pub fn maybe_do_lut_siddhi(p: &mut Prakriya, i_la: usize, la: La) -> (r: bool)
    requires
        lut_siddhi_applies(old(p).terms_seq(), i_la as int, la) ==> ({
            let tags = old(p).terms_seq()[i_la as int].tags@;
            tags.contains(T::Ekavacana) || tags.contains(T::Dvivacana) || tags.contains(
                T::Bahuvacana,
            )
        }),
    ensures
        r == lut_siddhi_applies(old(p).terms_seq(), i_la as int, la),
        !r ==> *final(p) == *old(p),
        r ==> replaced_with_upadesha(
            *old(p),
            *final(p),
            i_la as int,
            lut_ending(old(p).terms_seq()[i_la as int].tags@),
        ),
{
    if i_la < p.terms().len() && p.terms()[i_la].has_tag(T::Prathama) && la == La::Lut {
        let tin = &p.terms()[i_la];
        let ending = if tin.has_tag(T::Ekavacana) {
            "qA"
        } else if tin.has_tag(T::Dvivacana) {
            "rO"
        } else {
            "ras"
        };
        crate::operators::adesha("2.4.85", p, i_la, ending);
        true
    } else {
        false
    }
}

// Jhi
// ===
/// The indices of the terms of `ts` whose text is empty, in order.
pub open spec fn empty_positions(ts: Seq<Term>) -> Seq<int>
    decreases ts.len(),
{
    if ts.len() == 0 {
        Seq::empty()
    } else {
        let rest = empty_positions(ts.drop_last());
        if ts.last().text@.len() == 0 {
            rest.push(ts.len() - 1)
        } else {
            rest
        }
    }
}

/// The second-to-last term of `ts` with an empty text, or -1.
pub open spec fn second_last_empty(ts: Seq<Term>) -> int {
    let e = empty_positions(ts);
    if e.len() >= 2 {
        e[e.len() - 2]
    } else {
        -1
    }
}

/// Whether `x` ends in a sound of `A` (`a` or `A`).
pub open spec fn ends_in_a(x: Seq<char>) -> bool {
    x.len() > 0 && spec_s("A"@).contains(x.last())
}

/// Whether the ending `Ji` at `i` becomes `jus` (3.4.108 - 3.4.112), with the rule choices of
/// `p` deciding the optional rules.
pub open spec fn jus_applies(p: Prakriya, i: int, la: La) -> bool {
    let ts = p.terms_seq();
    let ch = p.cfg().rule_choices@;
    if !(0 <= i < ts.len() && ts[i].u_is("Ji"@)) {
        false
    } else if la == La::AshirLin || la == La::VidhiLin {
        true
    } else if !la.spec_is_nit() {
        false
    } else {
        let d = last_tagged(ts, T::Dhatu);
        let k = second_last_empty(ts);
        if d == -1 || k == -1 {
            false
        } else {
            let dt = ts[d];
            let pt = ts[k];
            let is_vid = dt.text@ == "vid"@ && dt.gana == Some(2i32);
            if pt.u_is("si~c"@) || pt.tagged(T::Abhyasta) || is_vid {
                true
            } else if ends_in_a(dt.text@) && pt.u_is("si~c"@) {
                true
            } else if la == La::Lan {
                if ends_in_a(pt.text@) && pt.tagged(T::Dhatu) {
                    allows(ch, "3.4.111"@)
                } else if dt.text@ == "dviz"@ {
                    allows(ch, "3.4.112"@)
                } else {
                    false
                }
            } else {
                false
            }
        }
    }
}

proof fn lemma_a_list()
    ensures
        crate::sounds::valid_sound_list("A"@),
{
    reveal_strlit("A");
    crate::sounds::lemma_one_word("A"@);
}

fn find_second_last_empty(p: &Prakriya) -> (r: Option<usize>)
    ensures
        r is None <==> second_last_empty(p.terms_seq()) == -1,
        r matches Some(k) ==> k == second_last_empty(p.terms_seq()) && k < p.terms_seq().len(),
{
    let ghost ts = p.terms_seq();
    let mut last: Option<usize> = None;
    let mut before: Option<usize> = None;
    let mut k: usize = 0;
    let n = p.terms().len();
    while k < n
        invariant
            k <= n,
            n == ts.len(),
            ts == p.terms_seq(),
            ({
                let e = empty_positions(ts.subrange(0, k as int));
                &&& (e.len() >= 1) == (last is Some)
                &&& last matches Some(x) ==> x == e[e.len() - 1] && x < k
                &&& (e.len() >= 2) == (before is Some)
                &&& before matches Some(x) ==> x == e[e.len() - 2] && x < k
            }),
        decreases n - k,
    {
        assert(ts.subrange(0, (k + 1) as int).drop_last() =~= ts.subrange(0, k as int));
        if p.terms()[k].text.as_str().unicode_len() == 0 {
            before = last;
            last = Some(k);
        }
        k = k + 1;
    }
    assert(ts.subrange(0, n as int) =~= ts);
    before
}

/// Whether `b` is `a` after `maybe_replace_jhi_with_jus` on the ending at `i`.
pub open spec fn jus_rel(a: Prakriya, b: Prakriya, i: int, la: La) -> bool {
    &&& Prakriya::revised(a, b)
    &&& jus_applies(a, i, la) ==> upadesha_taken(
            a.terms_seq(),
            b.terms_seq(),
            i,
            "jus"@,
        )
    &&& !jus_applies(a, i, la) ==> b.terms_seq() == a.terms_seq()
}

/// Replaces the ending `Ji` at `i` with `jus`: always in liN (3.4.108); in the Nit lakaras after
/// `si~c`, an abhyasta or `vid` (3.4.109), after a dhatu in `A` with `si~c` (3.4.110), and
/// optionally in laN after a dhatu in `A` (3.4.111) or after `dviz` (3.4.112).
pub fn maybe_replace_jhi_with_jus(p: &mut Prakriya, i: usize, la: La)
    ensures
        jus_rel(*old(p), *final(p), i as int, la),
{
    let ghost p0 = *p;
    proof {
        crate::prakriya::lemma_rewrote_refl(p0);
        crate::prakriya::lemma_rewrote_revised(p0, p0);
        lemma_a_list();
    }
    if !(i < p.terms().len() && p.terms()[i].has_u("Ji")) {
        return;
    }
    if la == La::AshirLin || la == La::VidhiLin {
        crate::operators::adesha("3.4.108", p, i, "jus");
        proof {
            crate::prakriya::lemma_rewrote_revised(p0, *p);
        }
    } else if la.is_nit() {
        let ghost ts = p.terms_seq();
        let r = p.find_last(T::Dhatu);
        proof {
            lemma_find_last(ts, T::Dhatu, r);
        }
        let i_dhatu = match r {
            Some(i) => i,
            None => {
                return;
            },
        };
        let i_prev = match find_second_last_empty(p) {
            Some(i) => i,
            None => {
                return;
            },
        };
        let a = crate::sounds::s("A");
        let dt = &p.terms()[i_dhatu];
        let pt = &p.terms()[i_prev];
        let is_vid = dt.has_text("vid") && dt.gana == Some(2);
        let dhatu_in_a = a.contains_opt(dt.antya());
        let prev_sic = pt.has_u("si~c");
        let prev_in_a_dhatu = a.contains_opt(pt.antya()) && pt.has_tag(T::Dhatu);
        let dviz = dt.has_text("dviz");
        proof {
            assert(i_dhatu == last_tagged(ts, T::Dhatu));
            assert(i_prev == second_last_empty(ts));
            assert(dhatu_in_a == ends_in_a(ts[i_dhatu as int].text@));
            assert(prev_in_a_dhatu == (ends_in_a(ts[i_prev as int].text@) && ts[
                i_prev as int].tagged(T::Dhatu)));
        }
        if prev_sic || pt.has_tag(T::Abhyasta) || is_vid {
            crate::operators::adesha("3.4.109", p, i, "jus");
            proof {
                crate::prakriya::lemma_rewrote_revised(p0, *p);
            }
        } else if dhatu_in_a && prev_sic {
            crate::operators::adesha("3.4.110", p, i, "jus");
            proof {
                crate::prakriya::lemma_rewrote_revised(p0, *p);
            }
        } else if la == La::Lan {
            if prev_in_a_dhatu {
                optional_jus(p, "3.4.111", i);
            } else if dviz {
                optional_jus(p, "3.4.112", i);
            }
        }
    }
}

/// Applies the optional rule `code` by replacing the ending at `i` with `jus`, where the rule
/// choices allow it, and records the decision either way.
fn optional_jus(p: &mut Prakriya, code: Rule, i: usize)
    requires
        i < old(p).terms_seq().len(),
    ensures
        Prakriya::revised(*old(p), *final(p)),
        allows(old(p).cfg().rule_choices@, code@) ==> upadesha_taken(
            old(p).terms_seq(),
            final(p).terms_seq(),
            i as int,
            "jus"@,
        ),
        !allows(old(p).cfg().rule_choices@, code@) ==> final(p).terms_seq() == old(
            p,
        ).terms_seq(),
{
    let ghost p0 = *p;
    if p.is_allowed(code) {
        let ghost p1 = *p;
        crate::operators::upadesha(p, i, "jus");
        let ghost p2 = *p;
        p.step(code);
        proof {
            assert(p.steps().subrange(0, p2.steps().len() as int) =~= p2.steps());
            crate::prakriya::lemma_rewrote_trans(p1, p2, *p);
            crate::prakriya::lemma_rewrote_revised(p1, *p);
            assert(p1.decisions().subrange(0, p0.decisions().len() as int) =~= p0.decisions());
            assert(p1.steps().subrange(0, p0.steps().len() as int) =~= p0.steps());
            crate::prakriya::lemma_revised_trans(p0, p1, *p);
        }
    } else {
        p.decline(code);
        proof {
            assert(p.decisions().subrange(0, p0.decisions().len() as int) =~= p0.decisions());
            assert(p.steps().subrange(0, p0.steps().len() as int) =~= p0.steps());
        }
    }
}

// loT and the Nit lakaras
// =======================
/// The text of the ending `x` after 3.4.101: `tas`, `Tas`, `Ta` and `mi` become `tAm`, `tam`,
/// `ta` and `am`.
pub open spec fn tam_adesha(x: Seq<char>) -> Seq<char> {
    if x == "tas"@ {
        "tAm"@
    } else if x == "Tas"@ {
        "tam"@
    } else if x == "Ta"@ {
        "ta"@
    } else if x == "mi"@ {
        "am"@
    } else {
        x
    }
}

proof fn lemma_tam(o: Seq<&str>, n: Seq<&str>, x: Seq<char>)
    requires
        o.len() == 4,
        n.len() == 4,
        o[0]@ == "tas"@,
        o[1]@ == "Tas"@,
        o[2]@ == "Ta"@,
        o[3]@ == "mi"@,
        n[0]@ == "tAm"@,
        n[1]@ == "tam"@,
        n[2]@ == "ta"@,
        n[3]@ == "am"@,
    ensures
        (if crate::operators::str_index(o, x) >= 0 {
            n[crate::operators::str_index(o, x)]@
        } else {
            x
        }) == tam_adesha(x),
{
    crate::operators::lemma_str_index(o, x);
    reveal_strlit("tas");
    reveal_strlit("Tas");
    reveal_strlit("Ta");
    reveal_strlit("mi");
}

/// Whether 3.4.101 applies to the text `x`.
pub open spec fn is_tas_thas(x: Seq<char>) -> bool {
    x == "tas"@ || x == "Tas"@ || x == "Ta"@ || x == "mi"@
}

/// The text of the ending `t` of loT or a Nit lakara after 3.4.101, 3.4.99 (the final `s` of a
/// parasmaipada uttama ending goes) and 3.4.100 (outside loT, a final `i` of a parasmaipada
/// ending goes).
pub open spec fn lot_nit_text(t: Term, la: La) -> Seq<char> {
    let x1 = tam_adesha(t.text@);
    let para = t.tagged(T::Parasmaipada);
    let x2 = if para && t.tagged(T::Uttama) && x1.len() > 0 && x1.last() == 's' {
        replace_antya(x1, Seq::empty())
    } else {
        x1
    };
    if para && x2.len() > 0 && x2.last() == 'i' && la != La::Lot {
        replace_antya(x2, Seq::empty())
    } else {
        x2
    }
}

/// Whether `b` is `a` after `maybe_do_lot_and_nit_siddhi`.
pub open spec fn lot_nit_rel(a: Prakriya, b: Prakriya, la: La) -> bool {
    &&& Prakriya::revised(a, b)
    &&& ({
            let ts = a.terms_seq();
            let i = last_tagged(ts, T::Tin);
            &&& (i == -1 || !(la == La::Lot || la.spec_is_nit())) ==> b.terms_seq() == ts
            &&& (i != -1 && (la == La::Lot || la.spec_is_nit())) ==> retexted(
                ts,
                b.terms_seq(),
                i,
                lot_nit_text(ts[i], la),
            )
        })
}

/// Applies the rules for the endings of loT and the Nit lakaras (3.4.99 - 3.4.101) to the last
/// tin.
pub fn maybe_do_lot_and_nit_siddhi(p: &mut Prakriya, la: La)
    ensures
        lot_nit_rel(*old(p), *final(p), la),
{
    let ghost p0 = *p;
    proof {
        crate::prakriya::lemma_rewrote_refl(p0);
        crate::prakriya::lemma_rewrote_revised(p0, p0);
    }
    let ghost ts = p.terms_seq();
    let r = p.find_last(T::Tin);
    proof {
        lemma_find_last(ts, T::Tin, r);
    }
    let i = match r {
        Some(i) => i,
        None => {
            return;
        },
    };
    if !(la == La::Lot || la.is_nit()) {
        return;
    }
    let ghost t0 = ts[i as int];
    let x = &p.terms()[i];
    if x.has_text("tas") || x.has_text("Tas") || x.has_text("Ta") || x.has_text("mi") {
        let tas_thas = ["tas", "Tas", "Ta", "mi"];
        let taam_tam = ["tAm", "tam", "ta", "am"];
        let op = |t: &mut Term|
            ensures
                final(t).text@ == tam_adesha(old(t).text@),
                same_but_text(*old(t), *final(t)),
            {
                proof {
                    let o = tas_thas@;
                    let n = taam_tam@;
                    assert(o[0] == "tas" && o[1] == "Tas" && o[2] == "Ta" && o[3] == "mi");
                    assert(n[0] == "tAm" && n[1] == "tam" && n[2] == "ta" && n[3] == "am");
                    lemma_tam(o, n, t.text@);
                }
                crate::operators::text_yatha(t, &tas_thas, &taam_tam);
            };
        p.op_term("3.4.101", i, op);
        proof {
            assert(p.steps().subrange(0, p0.steps().len() as int) =~= p0.steps());
            assert(p.decisions().subrange(0, p0.decisions().len() as int) =~= p0.decisions());
        }
    }
    let ghost p1 = *p;
    let ghost x1 = tam_adesha(t0.text@);
    assert(retexted(ts, p1.terms_seq(), i as int, x1));
    assert(Prakriya::revised(p0, p1));
    proof {
        reveal_strlit("");
        assert(""@ =~= Seq::<char>::empty());
        crate::prakriya::lemma_rewrote_refl(p1);
        crate::prakriya::lemma_rewrote_revised(p1, p1);
    }
    if p.terms()[i].has_tag(T::Parasmaipada) {
        if p.terms()[i].has_tag(T::Uttama) && p.terms()[i].antya() == Some('s') {
            crate::operators::term_antya(p, "3.4.99", i, "");
            proof {
                lemma_applied_revised(p1, *p, "3.4.99", i as int, replace_antya(x1, Seq::empty()));
            }
        }
        let ghost p2 = *p;
        let ghost x2 = p2.terms_seq()[i as int].text@;
        proof {
            lemma_retexted_trans(ts, p1.terms_seq(), p2.terms_seq(), i as int, x1, x2);
            crate::prakriya::lemma_rewrote_refl(p2);
            crate::prakriya::lemma_rewrote_revised(p2, p2);
        }
        // loT is excluded, since 3.4.86 covers it.
        if p.terms()[i].antya() == Some('i') && la != La::Lot {
            crate::operators::term_antya(p, "3.4.100", i, "");
            proof {
                lemma_applied_revised(p2, *p, "3.4.100", i as int, replace_antya(x2, Seq::empty()));
            }
        }
        proof {
            lemma_retexted_trans(ts, p2.terms_seq(), p.terms_seq(), i as int, x2, p.terms_seq()[
                i as int].text@);
            crate::prakriya::lemma_revised_trans(p0, p1, p2);
            crate::prakriya::lemma_revised_trans(p0, p2, *p);
        }
    }
}

proof fn lemma_retexted_trans(a: Seq<Term>, b: Seq<Term>, c: Seq<Term>, i: int, x: Seq<char>, y: Seq<
    char,
>)
    requires
        retexted(a, b, i, x),
        retexted(b, c, i, y),
    ensures
        retexted(a, c, i, y),
{
}

proof fn lemma_applied_revised(a: Prakriya, b: Prakriya, code: Rule, i: int, x: Seq<char>)
    requires
        crate::operators::term_rule_applied(a, b, code, i, x),
    ensures
        Prakriya::revised(a, b),
{
    assert(b.steps().subrange(0, a.steps().len() as int) =~= a.steps());
    assert(b.decisions().subrange(0, a.decisions().len() as int) =~= a.decisions());
}

// loT
// ===
/// Whether `x` ends with `s`.
pub open spec fn ends_with_str(x: Seq<char>, s: Seq<char>) -> bool {
    s.len() <= x.len() && x.subrange(x.len() - s.len(), x.len() as int) == s
}

/// The text of a loT ending `x` other than `si` after 3.4.86 and 3.4.89 - 3.4.93: `mi` becomes
/// `ni`, a final `i` becomes `u`, a final `e` becomes `E` in the uttama, `se` and `ve` become
/// `sva` and `vam`, and any other final `e` becomes `Am`.
pub open spec fn lot_text(x: Seq<char>, uttama: bool) -> Seq<char> {
    if ends_with_str(x, "mi"@) {
        "ni"@
    } else if ends_with_str(x, "i"@) {
        replace_antya(x, "u"@)
    } else if ends_with_str(x, "e"@) {
        if uttama {
            replace_antya(x, "E"@)
        } else if ends_with_str(x, "se"@) {
            x.subrange(0, x.len() - 2) + "sva"@
        } else if ends_with_str(x, "ve"@) {
            x.subrange(0, x.len() - 2) + "vam"@
        } else {
            replace_antya(x, "Am"@)
        }
    } else {
        x
    }
}

/// Whether `b` is the loT ending `a` after 3.4.86 - 3.4.93, where `chandasi_pit` says whether
/// 3.4.88 makes `hi` pit: `si` becomes `hi`, which is apit (3.4.87); the other endings change
/// as `lot_text` says; and an uttama ending is pit (3.4.92).
pub open spec fn lot_ending_became(a: Term, b: Term, chandasi_pit: bool) -> bool {
    let uttama = a.tagged(T::Uttama);
    let extra = if uttama {
        set![T::Pit]
    } else {
        Set::empty()
    };
    &&& b.gana == a.gana
    &&& b.number == a.number
    &&& b.lakshana == a.lakshana
    &&& if a.text@ == "si"@ {
        &&& b.u_is("hi"@)
        &&& b.text@ == "hi"@
        &&& b.tags@ == a.tags@.remove(T::pit).union(
            if chandasi_pit {
                set![T::Pit]
            } else {
                Set::empty()
            },
        ).union(extra)
    } else {
        &&& b.u == a.u
        &&& b.text@ == lot_text(a.text@, uttama)
        &&& b.tags@ == a.tags@.union(extra)
    }
}

/// Whether the ending at `i` is one of loT.
pub open spec fn lot_at(ts: Seq<Term>, i: int) -> bool {
    0 <= i < ts.len() && strings_have(ts[i].lakshana@, "lo~w"@)
}

/// Changes the text of the term at `i` to `text` and records `code`.
fn set_text_rule(p: &mut Prakriya, code: Rule, i: usize, text: &str)
    requires
        i < old(p).terms_seq().len(),
    ensures
        Prakriya::revised(*old(p), *final(p)),
        retexted(old(p).terms_seq(), final(p).terms_seq(), i as int, text@),
{
    let ghost p0 = *p;
    if let Some(t) = p.get_mut(i) {
        t.text = crate::strings::string_from(text);
    }
    let ghost p1 = *p;
    p.step(code);
    proof {
        assert(p.steps().subrange(0, p0.steps().len() as int) =~= p0.steps());
        assert(p.decisions().subrange(0, p0.decisions().len() as int) =~= p0.decisions());
    }
}

/// Whether `b` is `a` after `maybe_do_lot_only_siddhi` on the ending at `i`, with the result `ok`.
pub open spec fn lot_only_rel(pa: Prakriya, pb: Prakriya, i: int, ok: bool) -> bool {
    &&& Prakriya::revised(pa, pb)
    &&& !lot_at(pa.terms_seq(), i) ==> ok && pb.terms_seq() == pa.terms_seq()
    &&& lot_at(pa.terms_seq(), i) ==> {
            let ts = pa.terms_seq();
            let a = ts[i];
            let cp = pa.tag_set().contains(T::Chandasi) && allows(
                pa.cfg().rule_choices@,
                "3.4.88"@,
            );
            let fs = pb.terms_seq();
            if a.tagged(T::Uttama) {
                &&& fs == ts.update(i, fs[i + 1]).insert(i, fs[i])
                &&& lot_ending_became(a, fs[i + 1], cp)
                &&& is_agama_from(fs[i], "Aw"@)
                &&& (ok <==> crate::it_samjna::it_samjna_outcome(
                    "Aw"@,
                    "Aw"@,
                    set![T::Agama],
                ).2)
            } else {
                &&& ok
                &&& fs == ts.update(i, fs[i])
                &&& lot_ending_became(a, fs[i], cp)
            }
        }
}

/// Applies the loT rules to the ending at `i` (3.4.86 - 3.4.93): see `lot_ending_became`. For an
/// uttama ending, the agama `Aw` comes before it (3.4.92) and the it-samjna rules run on the
/// agama; the result is an error where they fail on it.
pub fn maybe_do_lot_only_siddhi(p: &mut Prakriya, i: usize) -> (r: Result<(), PrakriyaError>)
    ensures
        lot_only_rel(*old(p), *final(p), i as int, r is Ok),
{
    let ghost p0 = *p;
    proof {
        crate::prakriya::lemma_rewrote_refl(p0);
        crate::prakriya::lemma_rewrote_revised(p0, p0);
        reveal_strlit("mi");
        reveal_strlit("i");
        reveal_strlit("e");
        reveal_strlit("se");
        reveal_strlit("ve");
        reveal_strlit("sva");
        reveal_strlit("vam");
    }
    if !(i < p.terms().len() && p.terms()[i].has_lakshana("lo~w")) {
        return Ok(());
    }
    let ghost ts = p.terms_seq();
    let ghost a = ts[i as int];
    let ghost cp = p0.tag_set().contains(T::Chandasi) && allows(p0.cfg().rule_choices@, "3.4.88"@);
    let x = crate::strings::string_from(p.terms()[i].text.as_str());
    let uttama = p.terms()[i].has_tag(T::Uttama);
    if p.terms()[i].has_text("si") {
        if let Some(t) = p.get_mut(i) {
            t.u = Some(crate::strings::string_from("hi"));
            t.text = crate::strings::string_from("hi");
            t.remove_tag(T::pit);
        }
        let ghost q = *p;
        p.step("3.4.87");
        proof {
            assert(p.steps().subrange(0, q.steps().len() as int) =~= q.steps());
            assert(Prakriya::revised(p0, *p));
        }
        if p.has_tag(T::Chandasi) {
            let ghost q1 = *p;
            if p.is_allowed("3.4.88") {
                if let Some(t) = p.get_mut(i) {
                    t.add_tag(T::Pit);
                }
                let ghost q2 = *p;
                p.step("3.4.88");
                proof {
                    assert(p.steps().subrange(0, q2.steps().len() as int) =~= q2.steps());
                }
            } else {
                p.decline("3.4.88");
            }
            proof {
                assert(p.steps().subrange(0, q1.steps().len() as int) =~= q1.steps());
                assert(p.decisions().subrange(0, q1.decisions().len() as int) =~= q1.decisions());
                crate::prakriya::lemma_revised_trans(p0, q1, *p);
            }
        }
        proof {
            assert(p.terms_seq()[i as int].tags@ =~= a.tags@.remove(T::pit).union(
                if cp {
                    set![T::Pit]
                } else {
                    Set::empty()
                },
            ));
        }
    } else if crate::strings::ends_with(x.as_str(), "mi") {
        set_text_rule(p, "3.4.89", i, "ni");
    } else if crate::strings::ends_with(x.as_str(), "i") {
        crate::operators::term_antya(p, "3.4.86", i, "u");
        proof {
            lemma_applied_revised(p0, *p, "3.4.86", i as int, replace_antya(x@, "u"@));
        }
    } else if crate::strings::ends_with(x.as_str(), "e") {
        if uttama {
            crate::operators::term_antya(p, "3.4.93", i, "E");
            proof {
                lemma_applied_revised(p0, *p, "3.4.93", i as int, replace_antya(x@, "E"@));
            }
        } else if crate::strings::ends_with(x.as_str(), "se") {
            let n = x.as_str().unicode_len();
            let head = crate::strings::substring(x.as_str(), 0, n - 2);
            let y = crate::strings::concat(head.as_str(), "sva");
            set_text_rule(p, "3.4.91", i, y.as_str());
        } else if crate::strings::ends_with(x.as_str(), "ve") {
            let n = x.as_str().unicode_len();
            let head = crate::strings::substring(x.as_str(), 0, n - 2);
            let y = crate::strings::concat(head.as_str(), "vam");
            set_text_rule(p, "3.4.91", i, y.as_str());
        } else {
            crate::operators::term_antya(p, "3.4.90", i, "Am");
            proof {
                lemma_applied_revised(p0, *p, "3.4.90", i as int, replace_antya(x@, "Am"@));
            }
        }
    }
    let ghost p1 = *p;
    let ghost b1 = p1.terms_seq()[i as int];
    proof {
        assert(p1.terms_seq() =~= ts.update(i as int, b1));
        assert(x@ == a.text@);
        assert(uttama == a.tagged(T::Uttama));
        assert(a.text@ != "si"@ ==> b1.text@ == lot_text(a.text@, uttama));
        assert(a.text@ != "si"@ ==> b1.tags@ == a.tags@);
        assert(a.text@ != "si"@ ==> b1.u == a.u);
        assert(b1.lakshana == a.lakshana && b1.gana == a.gana && b1.number == a.number);
        assert(Prakriya::revised(p0, p1));
        let g = if cp {
            set![T::Pit]
        } else {
            Set::<T>::empty()
        };
        assert(a.tags@.remove(T::pit).union(g).union(Set::<T>::empty()) =~= a.tags@.remove(
            T::pit,
        ).union(g));
        assert(a.tags@.union(Set::<T>::empty()) =~= a.tags@);
        assert(a.tags@.remove(T::pit).union(g).union(set![T::Pit]) =~= a.tags@.remove(
            T::pit,
        ).union(g).insert(T::Pit));
        assert(a.tags@.union(set![T::Pit]) =~= a.tags@.insert(T::Pit));
    }
    if uttama {
        // The agama goes before the ending; pit goes to the ending, not to the agama.
        if let Some(t) = p.get_mut(i) {
            t.add_tag(T::Pit);
        }
        let agama = Term::make_agama("Aw");
        p.insert_before(i, agama);
        let ghost p2 = *p;
        assert(p2.terms_seq()[i + 1].tags@ == b1.tags@.insert(T::Pit));
        p.step("3.4.92");
        let ghost p3 = *p;
        let res = crate::it_samjna::run(p, i);
        proof {
            assert(p3.steps().subrange(0, p1.steps().len() as int) =~= p1.steps());
            assert(p3.decisions().subrange(0, p1.decisions().len() as int) =~= p1.decisions());
            crate::prakriya::lemma_rewrote_revised(p3, *p);
            crate::prakriya::lemma_revised_trans(p1, p3, *p);
            crate::prakriya::lemma_revised_trans(p0, p1, *p);
            assert(p.terms_seq() =~= ts.update(i as int, p.terms_seq()[i + 1]).insert(
                i as int,
                p.terms_seq()[i as int],
            ));
        }
        match res {
            Ok(()) => {},
            Err(e) => {
                return Err(e);
            },
        }
    }
    Ok(())
}

// liN
// ===
/// `x` with `s` before each `t` and `T` (3.4.107).
pub open spec fn sut_text(x: Seq<char>) -> Seq<char>
    decreases x.len(),
{
    if x.len() == 0 {
        x
    } else {
        let r = sut_text(x.drop_last());
        let c = x.last();
        if c == 't' || c == 'T' {
            r + seq!['s', c]
        } else {
            r.push(c)
        }
    }
}

/// `x` after 3.4.107, which applies where `x` has a `t` or a `T`.
pub open spec fn sut_if(x: Seq<char>) -> Seq<char> {
    if x.contains('t') || x.contains('T') {
        sut_text(x)
    } else {
        x
    }
}

/// Whether the ending at `i` is one of liN.
pub open spec fn lin_at(ts: Seq<Term>, i: int) -> bool {
    0 <= i < ts.len() && strings_have(ts[i].lakshana@, "li~N"@)
}

/// The agama that comes before a liN ending: `yAsu~w` in parasmaipada (3.4.103), `sIyu~w` in
/// atmanepada (3.4.102).
pub open spec fn lin_agama(para: bool) -> Seq<char> {
    if para {
        "yAsu~w"@
    } else {
        "sIyu~w"@
    }
}

/// Whether `b` is the liN ending `a` once the agama is in place: in parasmaipada it is kit in
/// ashir-liN (3.4.104) and Nit otherwise (3.4.103); in atmanepada `Ja` becomes `ran` (3.4.105)
/// and `iw` becomes `a` (3.4.106), as `took_upadesha` says.
pub open spec fn lin_ending_before_sut(a: Term, b: Term, la: La, para: bool) -> bool {
    &&& b.gana == a.gana
    &&& b.number == a.number
    &&& if para {
        &&& b.u == a.u
        &&& b.lakshana == a.lakshana
        &&& b.text == a.text
        &&& b.tags@ == a.tags@.insert(
            if la == La::AshirLin {
                T::kit
            } else {
                T::Nit
            },
        )
    } else if a.u_is("Ja"@) || a.u_is("iw"@) {
        crate::operators::took_upadesha(
            a,
            b,
            if a.u_is("Ja"@) {
                "ran"@
            } else {
                "a"@
            },
        )
    } else {
        &&& b.u == a.u
        &&& b.lakshana == a.lakshana
        &&& b.text == a.text
        &&& b.tags == a.tags
    }
}

fn sut_exec(x: &Vec<char>) -> (r: Vec<char>)
    ensures
        r@ == sut_text(x@),
{
    let mut r: Vec<char> = Vec::new();
    let mut k: usize = 0;
    while k < x.len()
        invariant
            k <= x@.len(),
            r@ == sut_text(x@.subrange(0, k as int)),
        decreases x@.len() - k,
    {
        assert(x@.subrange(0, (k + 1) as int).drop_last() =~= x@.subrange(0, k as int));
        let c = x[k];
        if c == 't' || c == 'T' {
            r.push('s');
            r.push(c);
            assert(r@ =~= sut_text(x@.subrange(0, k as int)) + seq!['s', c]);
        } else {
            r.push(c);
        }
        k = k + 1;
    }
    assert(x@.subrange(0, x@.len() as int) =~= x@);
    r
}

fn has_t(x: &Vec<char>) -> (r: bool)
    ensures
        r == (x@.contains('t') || x@.contains('T')),
{
    let mut k: usize = 0;
    while k < x.len()
        invariant
            k <= x@.len(),
            forall|j: int| 0 <= j < k ==> x@[j] != 't' && x@[j] != 'T',
        decreases x@.len() - k,
    {
        if x[k] == 't' || x[k] == 'T' {
            assert(x@[k as int] == 't' || x@[k as int] == 'T');
            return true;
        }
        k = k + 1;
    }
    false
}

/// Adds `s` before each `t` and `T` of the ending at `i`, if it has one (3.4.107).
fn sut_rule(p: &mut Prakriya, i: usize)
    requires
        i < old(p).terms_seq().len(),
    ensures
        Prakriya::revised(*old(p), *final(p)),
        retexted(
            old(p).terms_seq(),
            final(p).terms_seq(),
            i as int,
            sut_if(old(p).terms_seq()[i as int].text@),
        ),
{
    let ghost p0 = *p;
    let x = crate::strings::chars_of(p.terms()[i].text.as_str());
    if has_t(&x) {
        let y = sut_exec(&x);
        if let Some(t) = p.get_mut(i) {
            t.text = crate::strings::string_from_chars(y.as_slice());
        }
        let ghost p1 = *p;
        p.step("3.4.107");
        proof {
            assert(p.steps().subrange(0, p0.steps().len() as int) =~= p0.steps());
        }
    }
    proof {
        assert(p.decisions().subrange(0, p0.decisions().len() as int) =~= p0.decisions());
        assert(p.steps().subrange(0, p0.steps().len() as int) =~= p0.steps());
    }
}

/// Whether `b` is `a` after `maybe_do_lin_siddhi` on the ending at `i`, with the result `ok`.
pub open spec fn lin_rel(pa: Prakriya, pb: Prakriya, i: int, la: La, ok: bool) -> bool {
    &&& Prakriya::revised(pa, pb)
    &&& !lin_at(pa.terms_seq(), i) ==> ok && pb.terms_seq() == pa.terms_seq()
    &&& lin_at(pa.terms_seq(), i) ==> {
        let ts = pa.terms_seq();
        let a = ts[i];
        let para = a.tagged(T::Parasmaipada);
        let ag = lin_agama(para);
        let agama_ok = crate::it_samjna::it_samjna_outcome(ag, ag, set![T::Agama]).2;
        let fs = pb.terms_seq();
        &&& fs == ts.update(i, fs[i + 1]).insert(i, fs[i])
        &&& is_agama_from(fs[i], ag)
        &&& (ok <==> agama_ok)
        &&& agama_ok ==> exists|m: Term|
            lin_ending_before_sut(a, m, la, para) && m.u == fs[i + 1].u && m.tags == fs[i
                + 1].tags && m.gana == fs[i + 1].gana && m.number == fs[i + 1].number
                && m.lakshana == fs[i + 1].lakshana && fs[i + 1].text@ == sut_if(m.text@)
        &&& (!agama_ok && para) ==> lin_ending_before_sut(a, fs[i + 1], la, para)
        &&& (!agama_ok && !para) ==> fs[i + 1] == a
    }
}

/// Applies the liN rules to the ending at `i_tin` (3.4.102 - 3.4.107): the agama of
/// `lin_agama` comes before it and the it-samjna rules run on the agama; the ending changes as
/// `lin_ending_before_sut` says, and then as `sut_if` says. The result is an error where the
/// it-samjna rules fail on the agama, and the ending then keeps its text.
pub fn maybe_do_lin_siddhi(p: &mut Prakriya, i_tin: usize, la: La) -> (r: Result<
    (),
    PrakriyaError,
>)
    ensures
        lin_rel(*old(p), *final(p), i_tin as int, la, r is Ok),
{
    let ghost p0 = *p;
    proof {
        crate::prakriya::lemma_rewrote_refl(p0);
        crate::prakriya::lemma_rewrote_revised(p0, p0);
    }
    let mut i = i_tin;
    if !(i < p.terms().len() && p.terms()[i].has_lakshana("li~N")) {
        return Ok(());
    }
    let ghost ts = p.terms_seq();
    let ghost a = ts[i as int];
    if p.terms()[i].has_tag(T::Parasmaipada) {
        p.insert_before(i, Term::make_agama("yAsu~w"));
        i = i + 1;
        let ghost p1 = *p;
        // The tag goes to the pratyaya, not to the agama.
        let tag = if la == La::AshirLin {
            T::kit
        } else {
            T::Nit
        };
        if let Some(t) = p.get_mut(i) {
            t.add_tag(tag);
        }
        let ghost p2 = *p;
        if la == La::AshirLin {
            p.step("3.4.104");
        } else {
            p.step("3.4.103");
        }
        let ghost p3 = *p;
        let res = crate::it_samjna::run(p, i - 1);
        proof {
            assert(p3.steps().subrange(0, p0.steps().len() as int) =~= p0.steps());
            assert(p3.decisions().subrange(0, p0.decisions().len() as int) =~= p0.decisions());
            crate::prakriya::lemma_rewrote_revised(p3, *p);
            crate::prakriya::lemma_revised_trans(p0, p3, *p);
        }
        if let Err(e) = res {
            proof {
                assert(p.terms_seq() =~= ts.update(i - 1, p.terms_seq()[i as int]).insert(
                    i - 1,
                    p.terms_seq()[i - 1],
                ));
            }
            return Err(e);
        }
    } else {
        p.insert_before(i, Term::make_agama("sIyu~w"));
        i = i + 1;
        let ghost p1 = *p;
        p.step("3.4.102");
        let ghost p2 = *p;
        let res = crate::it_samjna::run(p, i - 1);
        proof {
            assert(p2.steps().subrange(0, p0.steps().len() as int) =~= p0.steps());
            assert(p2.decisions().subrange(0, p0.decisions().len() as int) =~= p0.decisions());
            crate::prakriya::lemma_rewrote_revised(p2, *p);
            crate::prakriya::lemma_revised_trans(p0, p2, *p);
        }
        if let Err(e) = res {
            proof {
                assert(p.terms_seq() =~= ts.update(i - 1, p.terms_seq()[i as int]).insert(
                    i - 1,
                    p.terms_seq()[i - 1],
                ));
            }
            return Err(e);
        }
        let ghost p3 = *p;
        if p.terms()[i].has_u("Ja") {
            crate::operators::adesha("3.4.105", p, i, "ran");
        } else if p.terms()[i].has_u("iw") {
            crate::operators::adesha("3.4.106", p, i, "a");
        }
        proof {
            crate::prakriya::lemma_rewrote_refl(p3);
            crate::prakriya::lemma_rewrote_revised(p3, *p);
            crate::prakriya::lemma_revised_trans(p0, p3, *p);
        }
    }
    let ghost p4 = *p;
    let ghost b = p4.terms_seq()[i as int];
    proof {
        assert(lin_ending_before_sut(a, b, la, a.tagged(T::Parasmaipada)));
    }
    sut_rule(p, i);
    proof {
        crate::prakriya::lemma_revised_trans(p0, p4, *p);
        assert(p.terms_seq() =~= ts.update(i - 1, p.terms_seq()[i as int]).insert(
            i - 1,
            p.terms_seq()[i - 1],
        ));
    }
    Ok(())
}

// The wit lakaras
// ===============
/// The parasmaipada tin endings.
pub open spec fn tin_para() -> Seq<&'static str> {
    seq!["tip", "tas", "Ji", "sip", "Tas", "Ta", "mip", "vas", "mas"]
}

/// The endings that replace the parasmaipada tin endings in liT (3.4.82).
pub open spec fn nal_para() -> Seq<&'static str> {
    seq!["Ral", "atus", "us", "Tal", "aTus", "a", "Ral", "va", "ma"]
}

/// The entry of `news` at the place of `u` in `olds`.
pub open spec fn yatha_of(olds: Seq<&'static str>, news: Seq<&'static str>, u: Seq<char>) -> Seq<
    char,
> {
    news[crate::operators::first_index_of(olds, u)]@
}

/// Whether the tin at `i` has the lakshana of a wit lakara.
pub open spec fn has_wit_lakshana(t: Term) -> bool {
    strings_have(t.lakshana@, "la~w"@) || strings_have(t.lakshana@, "li~w"@) || strings_have(
        t.lakshana@,
        "lu~w"@,
    ) || strings_have(t.lakshana@, "lf~w"@) || strings_have(t.lakshana@, "le~w"@) || strings_have(
        t.lakshana@,
        "lo~w"@,
    )
}

/// Whether the upadesha of `t`, if it has one, is among `items`.
pub open spec fn u_among(t: Term, items: Seq<&'static str>) -> bool {
    t.u is Some ==> seq_has_str(items, t.u->0@)
}

/// The rule of 3.4.79 - 3.4.84 that applies to the tin at `i` after the dhatu at `d`, where one
/// does: 1 for 3.4.81, 2 for 3.4.80, 3 for 3.4.79, 4 for 3.4.82, 5 for 3.4.83, 6 for 3.4.84,
/// and 0 for none; the optional rules are counted where they are in question.
pub open spec fn wit_rule(ts: Seq<Term>, i: int, d: int) -> int {
    let t = ts[i];
    if t.tagged(T::Atmanepada) && has_wit_lakshana(t) {
        if strings_have(t.lakshana@, "li~w"@) && (t.text@ == "ta"@ || t.text@ == "Ja"@) {
            1
        } else if t.text@ == "TAs"@ {
            2
        } else {
            3
        }
    } else if strings_have(t.lakshana@, "li~w"@) && t.tagged(T::Parasmaipada) {
        4
    } else if strings_have(t.lakshana@, "la~w"@) && t.tagged(T::Parasmaipada) {
        if ts[d].u_is("vida~"@) && seq_has_str(tin_para(), t.text@) {
            5
        } else if ts[d].text@ == "brU"@ && seq_has_str(tin_para().take(5), t.text@) {
            6
        } else {
            0
        }
    } else {
        0
    }
}

/// Whether the upadesha of the tin at `i` is one that the rule of `wit_rule` can replace, as
/// those rules need.
pub open spec fn wit_ready(ts: Seq<Term>, i: int, d: int) -> bool {
    let k = wit_rule(ts, i, d);
    &&& k == 1 ==> u_among(ts[i], seq!["ta", "Ja"])
    &&& (k == 4 || k == 5 || k == 6) ==> u_among(ts[i], tin_para())
}

/// Whether the terms `fs` are the terms `ts` after the rules 3.4.79 - 3.4.84 on the tin at `i`
/// after the dhatu at `d`, with the rule choices `ch`.
pub open spec fn wit_done(ts: Seq<Term>, fs: Seq<Term>, i: int, d: int, ch: Seq<
    crate::prakriya::RuleChoice,
>) -> bool {
    let t = ts[i];
    let k = wit_rule(ts, i, d);
    let u = t.u->0@;
    if k == 1 {
        if t.u is Some {
            upadesha_taken(ts, fs, i, yatha_of(seq!["ta", "Ja"], seq!["eS", "irec"], u))
        } else {
            fs == ts
        }
    } else if k == 2 {
        upadesha_taken(ts, fs, i, "se"@)
    } else if k == 3 {
        retexted(ts, fs, i, crate::operations::replace_ti(t.text@, "e"@))
    } else if k == 4 || (k == 5 && allows(ch, "3.4.83"@)) {
        if t.u is Some {
            upadesha_taken(ts, fs, i, yatha_of(tin_para(), nal_para(), u))
        } else {
            fs == ts
        }
    } else if k == 6 && allows(ch, "3.4.84"@) {
        let ms = ts.update(d, fs[d]);
        &&& d != i
        &&& retexted(ts, ms, d, "Ah"@)
        &&& if t.u is Some {
            upadesha_taken(ms, fs, i, yatha_of(tin_para(), nal_para(), u))
        } else {
            fs == ms
        }
    } else {
        fs == ts
    }
}

/// Replaces the upadesha of the tin at `i` through `upadesha_yatha` and records `code` after.
fn yatha_rule(p: &mut Prakriya, code: Rule, i: usize, olds: &[&str], news: &[&str])
    requires
        i < old(p).terms_seq().len(),
        olds@.len() == news@.len(),
        u_among(old(p).terms_seq()[i as int], olds@),
    ensures
        Prakriya::revised(*old(p), *final(p)),
        old(p).terms_seq()[i as int].u is Some ==> upadesha_taken(
            old(p).terms_seq(),
            final(p).terms_seq(),
            i as int,
            yatha_of(olds@, news@, old(p).terms_seq()[i as int].u->0@),
        ),
        old(p).terms_seq()[i as int].u is None ==> final(p).terms_seq() == old(p).terms_seq(),
{
    let ghost p0 = *p;
    crate::operators::upadesha_yatha(p, i, olds, news);
    let ghost p1 = *p;
    p.step(code);
    proof {
        assert(p1.steps().subrange(0, p0.steps().len() as int) =~= p0.steps());
        assert(p1.decisions().subrange(0, p0.decisions().len() as int) =~= p0.decisions());
        assert(p.steps().subrange(0, p0.steps().len() as int) =~= p0.steps());
        assert(p.decisions().subrange(0, p0.decisions().len() as int) =~= p0.decisions());
    }
}

/// The rules 3.4.79 - 3.4.84 on the tin at `i` after the dhatu at `d`.
fn wit_siddhi(p: &mut Prakriya, i: usize, d: usize)
    requires
        i < old(p).terms_seq().len(),
        d < old(p).terms_seq().len(),
        wit_ready(old(p).terms_seq(), i as int, d as int),
    ensures
        Prakriya::revised(*old(p), *final(p)),
        wit_done(
            old(p).terms_seq(),
            final(p).terms_seq(),
            i as int,
            d as int,
            old(p).cfg().rule_choices@,
        ),
{
    let ghost p0 = *p;
    let ghost ts = p.terms_seq();
    proof {
        crate::prakriya::lemma_rewrote_refl(p0);
        crate::prakriya::lemma_rewrote_revised(p0, p0);
    }
    let tin_para_arr = ["tip", "tas", "Ji", "sip", "Tas", "Ta", "mip", "vas", "mas"];
    let tin_para_5 = ["tip", "tas", "Ji", "sip", "Tas"];
    let nal_para_arr = ["Ral", "atus", "us", "Tal", "aTus", "a", "Ral", "va", "ma"];
    assert(tin_para_arr@ =~= tin_para());
    assert(tin_para_5@ =~= tin_para().take(5));
    assert(nal_para_arr@ =~= nal_para());
    let t = &p.terms()[i];
    let wits = t.has_lakshana("la~w") || t.has_lakshana("li~w") || t.has_lakshana("lu~w")
        || t.has_lakshana("lf~w") || t.has_lakshana("le~w") || t.has_lakshana("lo~w");
    let ghost k = wit_rule(ts, i as int, d as int);
    if t.has_tag(T::Atmanepada) && wits {
        if t.has_lakshana("li~w") && (t.has_text("ta") || t.has_text("Ja")) {
            let ta_jha = ["ta", "Ja"];
            let es_irec = ["eS", "irec"];
            assert(ta_jha@ =~= seq!["ta", "Ja"]);
            assert(es_irec@ =~= seq!["eS", "irec"]);
            yatha_rule(p, "3.4.81", i, &ta_jha, &es_irec);
        } else if t.has_text("TAs") {
            crate::operators::adesha("3.4.80", p, i, "se");
            proof {
                crate::prakriya::lemma_rewrote_revised(p0, *p);
            }
        } else {
            if let Some(t) = p.get_mut(i) {
                crate::operations::ti(t, "e");
            }
            let ghost p1 = *p;
            p.step("3.4.79");
            proof {
                assert(p.steps().subrange(0, p0.steps().len() as int) =~= p0.steps());
                assert(p.decisions().subrange(0, p0.decisions().len() as int) =~= p0.decisions());
            }
        }
    } else if t.has_lakshana("li~w") && t.has_tag(T::Parasmaipada) {
        yatha_rule(p, "3.4.82", i, &tin_para_arr, &nal_para_arr);
    } else if t.has_lakshana("la~w") && t.has_tag(T::Parasmaipada) {
        if p.terms()[d].has_u("vida~") && t.has_text_in(&tin_para_arr) {
            if p.is_allowed("3.4.83") {
                let ghost p1 = *p;
                yatha_rule(p, "3.4.83", i, &tin_para_arr, &nal_para_arr);
                proof {
                    assert(p1.decisions().subrange(0, p0.decisions().len() as int) =~= p0.decisions());
                    assert(p1.steps().subrange(0, p0.steps().len() as int) =~= p0.steps());
                    crate::prakriya::lemma_revised_trans(p0, p1, *p);
                }
            } else {
                p.decline("3.4.83");
                proof {
                    assert(p.decisions().subrange(0, p0.decisions().len() as int) =~= p0.decisions());
                    assert(p.steps().subrange(0, p0.steps().len() as int) =~= p0.steps());
                }
            }
        } else if p.terms()[d].has_text("brU") && t.has_text_in(&tin_para_5) {
            proof {
                reveal_strlit("brU");
                reveal_strlit("tip");
                reveal_strlit("tas");
                reveal_strlit("Ji");
                reveal_strlit("sip");
                reveal_strlit("Tas");
                assert(tin_para_5@[0] == "tip" && tin_para_5@[1] == "tas" && tin_para_5@[2] == "Ji"
                    && tin_para_5@[3] == "sip" && tin_para_5@[4] == "Tas");
                assert("brU"@[0] == 'b');
                assert("tip"@[0] == 't' && "tas"@[0] == 't' && "sip"@[0] == 's' && "Tas"@[0] == 'T');
                assert("Ji"@[0] == 'J');
                assert(forall|j: int| 0 <= j < 5 ==> (#[trigger] tin_para_5@[j])@ != "brU"@);
            }
            if p.is_allowed("3.4.84") {
                let ghost p1 = *p;
                if let Some(x) = p.get_mut(d) {
                    x.text = crate::strings::string_from("Ah");
                }
                let ghost p2 = *p;
                yatha_rule(p, "3.4.84", i, &tin_para_arr, &nal_para_arr);
                proof {
                    assert(p1.decisions().subrange(0, p0.decisions().len() as int) =~= p0.decisions());
                    assert(p1.steps().subrange(0, p0.steps().len() as int) =~= p0.steps());
                    assert(p2.decisions().subrange(0, p0.decisions().len() as int) =~= p0.decisions());
                    assert(p2.steps().subrange(0, p0.steps().len() as int) =~= p0.steps());
                    crate::prakriya::lemma_revised_trans(p0, p2, *p);
                    assert(ts.update(d as int, p.terms_seq()[d as int]) =~= p2.terms_seq());
                }
            } else {
                p.decline("3.4.84");
                proof {
                    assert(p.decisions().subrange(0, p0.decisions().len() as int) =~= p0.decisions());
                    assert(p.steps().subrange(0, p0.steps().len() as int) =~= p0.steps());
                }
            }
        }
    }
}

/// Whether the tin at `i` of `ts` is the ending `eS` with its `S` removed: the `S` of `eS` is
/// only there for sarva-adesha (1.1.55), and would get in the way of liT.
pub open spec fn es_done(ts: Seq<Term>, fs: Seq<Term>, i: int) -> bool {
    if 0 <= i < ts.len() && ts[i].u_is("eS"@) {
        &&& fs == ts.update(i, fs[i])
        &&& fs[i].tags@ == ts[i].tags@.remove(T::Sit)
        &&& fs[i].u == ts[i].u
        &&& fs[i].text == ts[i].text
        &&& fs[i].gana == ts[i].gana
        &&& fs[i].number == ts[i].number
        &&& fs[i].lakshana == ts[i].lakshana
    } else {
        fs == ts
    }
}

/// Whether the tin-siddhi rules of `siddhi` can run on `p`: the luT ending of 2.4.85 has a
/// vacana, and the ending that 3.4.81 - 3.4.84 replace by position has one of the upadeshas
/// those rules list.
pub open spec fn siddhi_ready(p: Prakriya, la: La) -> bool {
    let ts = p.terms_seq();
    let d = last_tagged(ts, T::Dhatu);
    let i = last_tagged(ts, T::Tin);
    (d != -1 && i != -1) ==> {
        &&& lut_siddhi_applies(ts, i, la) ==> ({
            let tags = ts[i].tags@;
            tags.contains(T::Ekavacana) || tags.contains(T::Dvivacana) || tags.contains(
                T::Bahuvacana,
            )
        })
        &&& !lut_siddhi_applies(ts, i, la) ==> wit_ready(ts, i, d)
    }
}

/// Whether `b` is `a` after the stages of `siddhi` past 2.4.85, through the intermediate
/// derivations `q1` - `q5` and the intermediate results `ok1` and `ok2`.
pub open spec fn siddhi_stages(
    a: Prakriya,
    b: Prakriya,
    la: La,
    ok: bool,
    q1: Prakriya,
    q2: Prakriya,
    q3: Prakriya,
    q4: Prakriya,
    q5: Prakriya,
    ok1: bool,
    ok2: bool,
) -> bool {
    let ts = a.terms_seq();
    let d = last_tagged(ts, T::Dhatu);
    let i = last_tagged(ts, T::Tin);
    &&& Prakriya::revised(a, q1)
    &&& wit_done(ts, q1.terms_seq(), i, d, a.cfg().rule_choices@)
    &&& lot_only_rel(q1, q2, i, ok1)
    &&& !ok1 ==> !ok && b.terms_seq() == q2.terms_seq()
    &&& ok1 ==> {
        &&& jus_rel(q2, q3, i, la)
        &&& lot_nit_rel(q3, q4, la)
        &&& lin_rel(q4, q5, i, la, ok2)
        &&& !ok2 ==> !ok && b.terms_seq() == q5.terms_seq()
        &&& ok2 ==> ok && es_done(q5.terms_seq(), b.terms_seq(), i)
    }
}

/// Whether `b` is `a` after `siddhi` with the result `ok`: see `siddhi`.
pub open spec fn siddhi_rel(a: Prakriya, b: Prakriya, la: La, ok: bool) -> bool {
    let ts = a.terms_seq();
    let d = last_tagged(ts, T::Dhatu);
    let i = last_tagged(ts, T::Tin);
    &&& Prakriya::revised(a, b)
    &&& if d == -1 || i == -1 {
        ok && b.terms_seq() == ts
    } else if lut_siddhi_applies(ts, i, la) {
        ok && upadesha_taken(ts, b.terms_seq(), i, lut_ending(ts[i].tags@))
    } else {
        exists|
            q1: Prakriya,
            q2: Prakriya,
            q3: Prakriya,
            q4: Prakriya,
            q5: Prakriya,
            ok1: bool,
            ok2: bool,
        | #[trigger] siddhi_stages(a, b, la, ok, q1, q2, q3, q4, q5, ok1, ok2)
    }
}

/// Applies the tin-siddhi rules to the last tin (2.4.85, 3.4.79 - 3.4.112): the luT endings of
/// the prathama (2.4.85, which ends the work); the endings of the wit lakaras (3.4.79 -
/// 3.4.84); those of loT (`maybe_do_lot_only_siddhi`); `Ji` to `jus`
/// (`maybe_replace_jhi_with_jus`); those of loT and the Nit lakaras
/// (`maybe_do_lot_and_nit_siddhi`); those of liN (`maybe_do_lin_siddhi`); and the `S` of `eS`
/// goes. By 3.4.109 this runs after dvitva and the vikaranas. The result is an error where the
/// it-samjna rules fail on an agama, and the work stops there.
pub fn siddhi(p: &mut Prakriya, la: La) -> (r: Result<(), PrakriyaError>)
    requires
        siddhi_ready(*old(p), la),
    ensures
        siddhi_rel(*old(p), *final(p), la, r is Ok),
{
    let ghost p0 = *p;
    let ghost ts = p.terms_seq();
    proof {
        crate::prakriya::lemma_rewrote_refl(p0);
        crate::prakriya::lemma_rewrote_revised(p0, p0);
    }
    let rd = p.find_last(T::Dhatu);
    proof {
        lemma_find_last(ts, T::Dhatu, rd);
    }
    let i_dhatu = match rd {
        Some(i) => i,
        None => {
            return Ok(());
        },
    };
    let ri = p.find_last(T::Tin);
    proof {
        lemma_find_last(ts, T::Tin, ri);
    }
    let i = match ri {
        Some(i) => i,
        None => {
            return Ok(());
        },
    };

    // Special case: 2.4.85 comes first, and ends the work.
    if maybe_do_lut_siddhi(p, i, la) {
        proof {
            crate::prakriya::lemma_rewrote_revised(p0, *p);
        }
        return Ok(());
    }
    wit_siddhi(p, i, i_dhatu);
    let ghost q1 = *p;
    // 3.4.94 - 3.4.98 (leT) are not covered here.
    let r1 = maybe_do_lot_only_siddhi(p, i);
    let ghost q2 = *p;
    proof {
        crate::prakriya::lemma_revised_trans(p0, q1, q2);
    }
    if let Err(e) = r1 {
        proof {
            assert(siddhi_stages(p0, *p, la, false, q1, q2, q2, q2, q2, false, false));
        }
        return Err(e);
    }
    // This must come before 3.4.100 in `maybe_do_lot_and_nit_siddhi`.
    maybe_replace_jhi_with_jus(p, i, la);
    let ghost q3 = *p;
    maybe_do_lot_and_nit_siddhi(p, la);
    let ghost q4 = *p;
    let r2 = maybe_do_lin_siddhi(p, i, la);
    let ghost q5 = *p;
    proof {
        crate::prakriya::lemma_revised_trans(p0, q2, q3);
        crate::prakriya::lemma_revised_trans(p0, q3, q4);
        crate::prakriya::lemma_revised_trans(p0, q4, q5);
    }
    if let Err(e) = r2 {
        proof {
            assert(siddhi_stages(p0, *p, la, false, q1, q2, q3, q4, q5, true, false));
        }
        return Err(e);
    }
    if i < p.terms().len() && p.terms()[i].has_u("eS") {
        if let Some(t) = p.get_mut(i) {
            t.remove_tag(T::Sit);
        }
    }
    proof {
        assert(lin_rel(q4, q5, i as int, la, true));
        assert(p.steps() == q5.steps());
        assert(p.decisions() == q5.decisions());
        assert(p.steps().subrange(0, p0.steps().len() as int) =~= q5.steps().subrange(0, p0.steps().len() as int));
        assert(p.terms_seq() =~= q5.terms_seq().update(i as int, p.terms_seq()[i as int]) || p.terms_seq() == q5.terms_seq());
        assert(siddhi_stages(p0, *p, la, true, q1, q2, q3, q4, q5, true, true));
    }
    Ok(())
}

} // verus!
