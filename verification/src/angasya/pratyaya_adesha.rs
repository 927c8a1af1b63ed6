//! Rules that replace sounds of a pratyaya (7.1.1 - 7.1.35, and 3.1.83).
use crate::constants::Tag as T;
use crate::it_samjna::it_samjna_outcome;
use crate::operations::replace_adi;
use crate::operators::{is_agama_from, retexted, upadesha_taken};
use crate::prakriya::{allows, Prakriya, Rule};
use crate::sounds::spec_s;
use crate::term::Term;
use crate::tripadi::pada_8_2::prev_nonempty;
use vstd::prelude::*;

verus! {

/// The index of the last term before `i` that has text, if any.
fn prev_with_text(p: &Prakriya, i: usize) -> (r: Option<usize>)
    requires
        i <= p.terms_seq().len(),
    ensures
        r is None <==> prev_nonempty(p.terms_seq(), i - 1) == -1,
        r matches Some(k) ==> k == prev_nonempty(p.terms_seq(), i - 1) && k < i,
{
    let ghost ts = p.terms_seq();
    let mut j: usize = i;
    while j > 0
        invariant
            j <= i,
            i <= ts.len(),
            ts == p.terms_seq(),
            prev_nonempty(ts, i - 1) == prev_nonempty(ts, j - 1),
        decreases j,
    {
        if p.terms()[j - 1].text.as_str().unicode_len() > 0 {
            return Some(j - 1);
        }
        j = j - 1;
    }
    None
}

/// The sounds that replace the initial `J` of the pratyaya after `base` (7.1.3 - 7.1.5): `at`
/// after an abhyasta (7.1.4) and, in atmanepada, after an anga that does not end in `a`
/// (7.1.5); otherwise `ant` (7.1.3).
pub open spec fn jha_sub(base: Term, tin: Term) -> Seq<char> {
    if base.tagged(T::Abhyasta) {
        "at"@
    } else if !(base.text@.len() > 0 && base.text@.last() == 'a') && tin.tagged(T::Atmanepada) {
        "at"@
    } else {
        "ant"@
    }
}

/// Whether 7.1.6 or 7.1.7 adds the agama `ru~w` before the atmanepada ending after `base`,
/// with the rule choices `ch`.
pub open spec fn adds_rut(base: Term, tin: Term, ch: Seq<crate::prakriya::RuleChoice>) -> bool {
    tin.tagged(T::Atmanepada) && (base.u_is("SIN"@) || (base.u_is("vida~"@) && base.gana == Some(
        2i32,
    ) && allows(ch, "7.1.7"@)))
}

/// Whether `b` is `a` after `maybe_do_jha_adesha` on the pratyaya at `i`, with the result
/// `ok`: a pratyaya that begins with `J` and has a term with text before it takes `jha_sub`
/// for its `J`, and the agama `ru~w` comes before it where `adds_rut` says; the result is
/// false where none of this is in question or the it-samjna rules fail on the agama.
pub open spec fn jha_rel(a: Prakriya, b: Prakriya, i: int, ok: bool) -> bool {
    let ts = a.terms_seq();
    let fs = b.terms_seq();
    let k = prev_nonempty(ts, i - 1);
    &&& Prakriya::revised(a, b)
    &&& if !(0 <= i < ts.len() && ts[i].text@.len() > 0 && ts[i].text@[0] == 'J') || k == -1 {
        !ok && fs == ts
    } else {
        let tin = ts[i];
        let base = ts[k];
        let ms = ts.update(i, fs[if adds_rut(base, tin, a.cfg().rule_choices@) {
            i + 1
        } else {
            i
        }]);
        &&& retexted(ts, ms, i, replace_adi(tin.text@, jha_sub(base, tin)))
        &&& if adds_rut(base, tin, a.cfg().rule_choices@) {
            &&& fs == ms.insert(i, fs[i])
            &&& is_agama_from(fs[i], "ru~w"@)
            &&& ok == it_samjna_outcome("ru~w"@, "ru~w"@, set![T::Agama]).2
        } else {
            fs == ms && ok
        }
    }
}

/// Replaces the initial `J` of the pratyaya at `i` (7.1.3 - 7.1.5), and adds the agama `ru~w`
/// before it after `SIN` (7.1.6) or, optionally, `vid` of the second gana (7.1.7) in
/// atmanepada, running the it-samjna rules on the agama. Returns `None` where the pratyaya does
/// not begin with `J`, no term with text comes before it, or the it-samjna rules fail.
pub fn maybe_do_jha_adesha(p: &mut Prakriya, i: usize) -> (r: Option<()>)
    ensures
        jha_rel(*old(p), *final(p), i as int, r is Some),
{
    let ghost p0 = *p;
    let ghost ts = p.terms_seq();
    proof {
        crate::prakriya::lemma_rewrote_refl(p0);
        crate::prakriya::lemma_rewrote_revised(p0, p0);
    }
    if !(i < p.terms().len() && p.terms()[i].has_adi('J')) {
        return None;
    }
    let i_base = match prev_with_text(p, i) {
        Some(k) => k,
        None => {
            return None;
        },
    };
    let base_abhyasta = p.terms()[i_base].has_tag(T::Abhyasta);
    let base_in_a = p.terms()[i_base].has_antya('a');
    let atmane = p.terms()[i].has_tag(T::Atmanepada);
    if base_abhyasta {
        crate::operators::term_adi(p, "7.1.4", i, "at");
    } else if !base_in_a && atmane {
        crate::operators::term_adi(p, "7.1.5", i, "at");
    } else {
        crate::operators::term_adi(p, "7.1.3", i, "ant");
    }
    let ghost p1 = *p;
    let ghost base = ts[i_base as int];
    let ghost tin = ts[i as int];
    proof {
        assert(p1.terms_seq() =~= ts.update(i as int, p1.terms_seq()[i as int]));
        assert(retexted(ts, p1.terms_seq(), i as int, replace_adi(tin.text@, jha_sub(base, tin))));
        assert(p1.steps().subrange(0, p0.steps().len() as int) =~= p0.steps());
        assert(p1.decisions().subrange(0, p0.decisions().len() as int) =~= p0.decisions());
        crate::prakriya::lemma_rewrote_refl(p1);
        crate::prakriya::lemma_rewrote_revised(p1, p1);
    }
    if atmane {
        let is_shin = p.terms()[i_base].has_u("SIN");
        let is_vid = p.terms()[i_base].has_u("vida~") && p.terms()[i_base].gana == Some(2);
        let mut add = false;
        if is_shin {
            add = true;
        } else if is_vid {
            add = p.is_allowed("7.1.7");
            if !add {
                p.decline("7.1.7");
            }
        }
        let ghost p2 = *p;
        proof {
            assert(add == adds_rut(base, tin, p0.cfg().rule_choices@));
            assert(p2.steps().subrange(0, p1.steps().len() as int) =~= p1.steps());
            assert(p2.decisions().subrange(0, p1.decisions().len() as int) =~= p1.decisions());
            crate::prakriya::lemma_revised_trans(p0, p1, p2);
        }
        if add {
            crate::operators::insert_agama_before(p, i, "ru~w");
            let ghost p3 = *p;
            if is_shin {
                p.step("7.1.6");
            } else {
                p.step("7.1.7");
            }
            let ghost p4 = *p;
            let res = crate::it_samjna::run(p, i);
            proof {
                assert(p4.steps().subrange(0, p2.steps().len() as int) =~= p2.steps());
                assert(p4.decisions().subrange(0, p2.decisions().len() as int) =~= p2.decisions());
                crate::prakriya::lemma_rewrote_revised(p4, *p);
                crate::prakriya::lemma_revised_trans(p2, p4, *p);
                crate::prakriya::lemma_revised_trans(p0, p2, *p);
                assert(p.terms_seq() =~= ts.update(i as int, p.terms_seq()[i + 1]).insert(
                    i as int,
                    p.terms_seq()[i as int],
                ));
            }
            if res.is_err() {
                return None;
            }
        }
    }
    Some(())
}

/// The sounds that replace the initial `P`, `Q`, `K`, `C` or `G` of a pratyaya (7.1.2).
pub open spec fn ayan_sub(c: char) -> Seq<char> {
    if c == 'P' {
        "Ayan"@
    } else if c == 'Q' {
        "ey"@
    } else if c == 'K' {
        "In"@
    } else if c == 'C' {
        "Iy"@
    } else {
        "in"@
    }
}

fn ayan_sub_exec(c: char) -> (r: &'static str)
    ensures
        r@ == ayan_sub(c),
{
    if c == 'P' {
        "Ayan"
    } else if c == 'Q' {
        "ey"
    } else if c == 'K' {
        "In"
    } else if c == 'C' {
        "Iy"
    } else {
        "in"
    }
}

/// Whether `b` is `a` after the first rules of `try_pratyaya_adesha` on its last term at `i`:
/// `yu~` and `vu~` become `ana` and `aka` (7.1.1); an initial `P Q K C G` is replaced (7.1.2);
/// an initial `J` is replaced as `maybe_do_jha_adesha` says; and the tin `tu` or `hi`
/// optionally becomes `tAta~N` (7.1.35).
pub open spec fn pratyaya_first_rel(a: Prakriya, b: Prakriya, i: int, jha_ok: bool) -> bool {
    let ts = a.terms_seq();
    let fs = b.terms_seq();
    let t = ts[i];
    let x = t.text@;
    &&& Prakriya::revised(a, b)
    &&& if x == "yu~"@ {
        retexted(ts, fs, i, "ana"@)
    } else if x == "vu~"@ {
        retexted(ts, fs, i, "aka"@)
    } else if x.len() > 0 && (x[0] == 'P' || x[0] == 'Q' || x[0] == 'K' || x[0] == 'C' || x[0]
        == 'G') {
        retexted(ts, fs, i, replace_adi(x, ayan_sub(x[0])))
    } else if x.len() > 0 && x[0] == 'J' {
        jha_rel(a, b, i, jha_ok)
    } else if t.tagged(T::Tin) && (x == "tu"@ || x == "hi"@) && allows(
        a.cfg().rule_choices@,
        "7.1.35"@,
    ) {
        upadesha_taken(ts, fs, i, "tAta~N"@)
    } else {
        fs == ts
    }
}

/// Whether 3.1.83 replaces `SnA` at `i - 1` with `SAnac` in `ts`: after a consonant and before
/// `hi`.
pub open spec fn shanac_applies(ts: Seq<Term>, i: int) -> bool {
    &&& i >= 2
    &&& i < ts.len()
    &&& ts[i - 2].text@.len() > 0
    &&& spec_s("hal"@).contains(ts[i - 2].text@.last())
    &&& ts[i - 1].u_is("SnA"@)
    &&& ts[i].text@ == "hi"@
}

/// Whether `b` is `a` after `try_pratyaya_adesha` through the derivation `q` between its two
/// parts, with `jha_ok` the result of `maybe_do_jha_adesha`.
pub open spec fn pratyaya_adesha_stages(a: Prakriya, b: Prakriya, q: Prakriya, jha_ok: bool) -> bool {
    let i = a.terms_seq().len() - 1;
    &&& pratyaya_first_rel(a, q, i, jha_ok)
    &&& Prakriya::revised(q, b)
    &&& if a.terms_seq().len() > 2 && shanac_applies(q.terms_seq(), i) {
        upadesha_taken(q.terms_seq(), b.terms_seq(), i - 1, "SAnac"@)
    } else {
        b.terms_seq() == q.terms_seq()
    }
}

/// Replaces sounds of the last pratyaya (7.1.1 - 7.1.35), as `pratyaya_first_rel` says, then
/// `SnA` with `SAnac` before `hi` after a consonant (3.1.83). Returns `None` where there are
/// fewer than two terms.
pub fn try_pratyaya_adesha(p: &mut Prakriya) -> (r: Option<()>)
    ensures
        r is Some <==> old(p).terms_seq().len() >= 2,
        old(p).terms_seq().len() < 2 ==> *final(p) == *old(p),
        old(p).terms_seq().len() >= 2 ==> exists|q: Prakriya, jha_ok: bool|
            #[trigger] pratyaya_adesha_stages(*old(p), *final(p), q, jha_ok),
{
    let ghost p0 = *p;
    let len = p.terms().len();
    if len < 2 {
        return None;
    }
    let i = len - 1;
    proof {
        crate::prakriya::lemma_rewrote_refl(p0);
        crate::prakriya::lemma_rewrote_revised(p0, p0);
        reveal_strlit("yu~");
        reveal_strlit("vu~");
    }
    let last = &p.terms()[i];
    let mut jha_ok = true;
    if last.has_text("yu~") {
        crate::operators::term_text(p, "7.1.1", i, "ana");
    } else if last.has_text("vu~") {
        crate::operators::term_text(p, "7.1.1", i, "aka");
    } else if last.has_adi('P') || last.has_adi('Q') || last.has_adi('K') || last.has_adi('C')
        || last.has_adi('G') {
        let c = last.text.as_str().get_char(0);
        crate::operators::term_adi(p, "7.1.2", i, ayan_sub_exec(c));
    } else if last.has_adi('J') {
        jha_ok = maybe_do_jha_adesha(p, i).is_some();
        // 7.1.34 (daDyA -> daDyO) happens later, after the dhatu's vowel change (DyE -> DyA).
    } else if last.has_tag(T::Tin) && (last.has_text("tu") || last.has_text("hi")) {
        // -tAt substitution needs to occur early because it conditions samprasarana. Its N
        // is to block pit-guNa, not for replacement of the last letter.
        if p.is_allowed("7.1.35") {
            let ghost pa = *p;
            crate::operators::upadesha(p, i, "tAta~N");
            let ghost pb = *p;
            p.step("7.1.35");
            proof {
                assert(p.steps().subrange(0, pb.steps().len() as int) =~= pb.steps());
                crate::prakriya::lemma_rewrote_trans(pa, pb, *p);
                crate::prakriya::lemma_rewrote_revised(pa, *p);
                assert(pa.decisions().subrange(0, p0.decisions().len() as int) =~= p0.decisions());
                assert(pa.steps().subrange(0, p0.steps().len() as int) =~= p0.steps());
                crate::prakriya::lemma_revised_trans(p0, pa, *p);
            }
        } else {
            p.decline("7.1.35");
        }
    }
    let ghost q = *p;
    proof {
        assert(q.steps().subrange(0, p0.steps().len() as int) =~= p0.steps());
        assert(q.decisions().subrange(0, p0.decisions().len() as int) =~= p0.decisions());
        crate::prakriya::lemma_rewrote_refl(q);
        crate::prakriya::lemma_rewrote_revised(q, q);
        assert(pratyaya_first_rel(p0, q, i as int, jha_ok));
    }
    // 3.1.83 runs here because it has no clear place otherwise.
    if len > 2 {
        proof {
            crate::asiddhavat::lemma_hal();
        }
        let hal = crate::sounds::s("hal");
        if hal.contains_opt(p.terms()[i - 2].antya()) && p.terms()[i - 1].has_u("SnA")
            && p.terms()[i].has_text("hi") {
            crate::operators::adesha("3.1.83", p, i - 1, "SAnac");
            proof {
                crate::prakriya::lemma_rewrote_revised(q, *p);
            }
        }
    }
    proof {
        assert(pratyaya_adesha_stages(p0, *p, q, jha_ok));
    }
    Some(())
}

} // verus!
