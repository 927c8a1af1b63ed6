//! Rules that change the anga (6.4 and 7.x).
use crate::constants::Tag as T;
use crate::operations::{
    insert_after_last_vowel, replace_antya, replace_upadha, same_but_text, same_but_text_and_tags,
};
use crate::operators::term_rule_applied;
use crate::prakriya::{allows, Prakriya, Rule, RuleChoice};
use crate::sounds::{self, spec_s, spec_to_guna, spec_to_vrddhi, SoundSet};
use crate::it_samjna::it_samjna_outcome;
use crate::term::{first_sound, next_nonempty, spec_antya, spec_upadha, view_end, Term, TermView};
use vstd::prelude::*;

mod pratyaya_adesha;

pub use pratyaya_adesha::{maybe_do_jha_adesha, try_pratyaya_adesha};

verus! {

/// Replaces the last vowel of `t` with its guna substitute (1.1.2, 1.1.51) and marks the
/// term with `FlagGuna`, where the last sound has one.
pub fn op_antya_guna(t: &mut Term)
    ensures
        (spec_antya(old(t).text@) matches Some(a) && spec_to_guna(a) is Some) ==> {
            &&& final(t).text@ == replace_antya(
                old(t).text@,
                spec_to_guna(spec_antya(old(t).text@)->0)->0,
            )
            &&& final(t).tags@ == old(t).tags@.insert(T::FlagGuna)
            &&& same_but_text_and_tags(*old(t), *final(t))
        },
        !(spec_antya(old(t).text@) matches Some(a) && spec_to_guna(a) is Some) ==> *final(t)
            == *old(t),
{
    if let Some(a) = t.antya() {
        if let Some(sub) = sounds::to_guna(a) {
            crate::operations::antya(t, sub);
            t.add_tag(T::FlagGuna);
        }
    }
}

/// Whether `anga` takes guna or vrddhi before the view `n` that follows it: not for dIDI,
/// vevI and the iw-agama (1.1.6), not before a kit or Nit (1.1.5), not where a flag blocks
/// it, and only before a pratyaya.
pub fn can_use_guna_or_vrddhi(anga: &Term, n: &TermView) -> (r: bool)
    ensures
        r == (!(anga.u_is("dIDIN"@) || anga.u_is("vevIN"@) || (anga.u_is("iw"@) && anga.tagged(
            T::Agama,
        ))) && !(n.view_tagged(T::kit) || n.view_tagged(T::Nit)) && !(anga.tagged(T::FlagAtLopa)
            || anga.tagged(T::FlagGunaApavada)) && n.view_tagged(T::Pratyaya)),
{
    // 1.1.6 dIdhI-vevI-iTAm
    let didhi_vevi_itam = anga.has_u_in(&["dIDIN", "vevIN"]) || (anga.has_u("iw")
        && anga.has_tag(T::Agama));
    // 1.1.5 kNiti ca
    let kniti = n.any(&[T::kit, T::Nit]);
    // Other prohibitions
    let blocked = anga.has_tag_in(&[T::FlagAtLopa, T::FlagGunaApavada]);
    let is_pratyaya = n.has_tag(T::Pratyaya);

    // Otherwise, 1.1.3 iko guNavRddhI
    !didhi_vevi_itam && !kniti && !blocked && is_pratyaya
}

// Views and steps
// ===============
/// The terms of the view that starts at `j`: the agamas there and the term they attach to.
pub open spec fn view_at(ts: Seq<Term>, j: int) -> Seq<Term> {
    ts.subrange(j, view_end(ts, j, j) + 1)
}

/// Whether some term of the view at `j` has `tag`.
pub open spec fn view_has(ts: Seq<Term>, j: int, tag: T) -> bool {
    exists|k: int| 0 <= k < view_at(ts, j).len() && (#[trigger] view_at(ts, j)[k]).tagged(tag)
}

/// Whether `anga` can take guna or vrddhi before the view at `j` (1.1.5, 1.1.6): what
/// `can_use_guna_or_vrddhi` returns.
pub open spec fn guna_allowed(anga: Term, ts: Seq<Term>, j: int) -> bool {
    &&& !(anga.u_is("dIDIN"@) || anga.u_is("vevIN"@) || (anga.u_is("iw"@) && anga.tagged(T::Agama)))
    &&& !(view_has(ts, j, T::kit) || view_has(ts, j, T::Nit))
    &&& !(anga.tagged(T::FlagAtLopa) || anga.tagged(T::FlagGunaApavada))
    &&& view_has(ts, j, T::Pratyaya)
}

/// Whether `b` is `a` after a step for rule `code` that changed only the terms.
pub open spec fn logged_rule(a: Prakriya, b: Prakriya, code: Rule) -> bool {
    &&& Prakriya::logged(a.steps(), b.steps(), a.cfg().log_steps, code, b.terms_seq())
    &&& b.tag_set() == a.tag_set()
    &&& b.cfg() == a.cfg()
    &&& b.decisions() == a.decisions()
}

/// Whether the terms `b` are the terms `a` with term `i` given the text `text` and the tag
/// `FlagGuna`, and nothing else changed.
pub open spec fn flagged_at(a: Seq<Term>, b: Seq<Term>, i: int, text: Seq<char>) -> bool {
    &&& 0 <= i < a.len()
    &&& b.len() == a.len()
    &&& forall|k: int| 0 <= k < a.len() && k != i ==> b[k] == a[k]
    &&& same_but_text_and_tags(a[i], b[i])
    &&& b[i].text@ == text
    &&& b[i].tags@ == a[i].tags@.insert(T::FlagGuna)
}

/// Whether the terms `b` are the terms `a` after `op_antya_guna` on term `i`.
pub open spec fn antya_guna_at(a: Seq<Term>, b: Seq<Term>, i: int) -> bool {
    let t = a[i].text@;
    if spec_antya(t) is Some && spec_to_guna(spec_antya(t)->0) is Some {
        flagged_at(a, b, i, replace_antya(t, spec_to_guna(spec_antya(t)->0)->0))
    } else {
        b == a
    }
}

fn term_antya_guna(p: &mut Prakriya, code: Rule, i: usize)
    requires
        i < old(p).terms_seq().len(),
    ensures
        logged_rule(*old(p), *final(p), code),
        antya_guna_at(old(p).terms_seq(), final(p).terms_seq(), i as int),
{
    let op = |t: &mut Term|
        ensures
            (spec_antya(old(t).text@) matches Some(a) && spec_to_guna(a) is Some) ==> {
                &&& final(t).text@ == replace_antya(
                    old(t).text@,
                    spec_to_guna(spec_antya(old(t).text@)->0)->0,
                )
                &&& final(t).tags@ == old(t).tags@.insert(T::FlagGuna)
                &&& same_but_text_and_tags(*old(t), *final(t))
            },
            !(spec_antya(old(t).text@) matches Some(a) && spec_to_guna(a) is Some) ==> *final(t)
                == *old(t),
        {
            op_antya_guna(t);
        };
    p.op_term(code, i, op);
    proof {
        let ts = old(p).terms_seq();
        if !(spec_antya(ts[i as int].text@) is Some && spec_to_guna(spec_antya(ts[i as int].text@)->0) is Some) {
            assert(p.terms_seq() =~= ts);
        }
    }
}

fn term_text_flagged(p: &mut Prakriya, code: Rule, i: usize, text: &str)
    requires
        i < old(p).terms_seq().len(),
    ensures
        logged_rule(*old(p), *final(p), code),
        flagged_at(old(p).terms_seq(), final(p).terms_seq(), i as int, text@),
{
    let op = |t: &mut Term|
        ensures
            final(t).text@ == text@,
            final(t).tags@ == old(t).tags@.insert(T::FlagGuna),
            same_but_text_and_tags(*old(t), *final(t)),
        {
            t.text = crate::strings::string_from(text);
            t.add_tag(T::FlagGuna);
        };
    p.op_term(code, i, op);
}

// Guna
// ====
/// The sounds of the pratyahara `ac`.
pub open spec fn ac() -> Set<char> {
    spec_s("ac"@)
}

/// Whether the first sound of the terms `ts` is in `set`.
pub open spec fn starts_in(ts: Seq<Term>, set: Set<char>) -> bool {
    first_sound(ts) is Some && set.contains(first_sound(ts)->0)
}

/// Whether `t` is a pratyaya with exactly one sound.
pub open spec fn aprkta(t: Term) -> bool {
    t.tagged(T::Pratyaya) && t.text@.len() == 1
}

/// Whether the view at `j` is a sarvadhatuka that is pit.
pub open spec fn pit_sarvadhatuka(ts: Seq<Term>, j: int) -> bool {
    view_has(ts, j, T::pit) && view_has(ts, j, T::Sarvadhatuka)
}

/// Whether `q` is `a` after the exceptions of 7.3.89 - 7.3.91 for the anga at `i`, before the
/// view at `j`.
pub open spec fn guna_exceptions_done(a: Prakriya, q: Prakriya, i: int, j: int) -> bool {
    let ts = a.terms_seq();
    let t = ts[i].text@;
    let piti = pit_sarvadhatuka(ts, j);
    if t.len() > 0 && t.last() == 'u' && starts_in(view_at(ts, j), crate::asiddhavat::hal())
        && piti {
        if ts[i].u_is("UrRuY"@) {
            if aprkta(ts[view_end(ts, j, j)]) {
                logged_rule(a, q, "7.3.91") && antya_guna_at(ts, q.terms_seq(), i)
            } else if allows(a.cfg().rule_choices@, "7.3.90"@) {
                Prakriya::revised(a, q) && crate::operators::retexted(
                    ts,
                    q.terms_seq(),
                    i,
                    replace_antya(t, "O"@),
                )
            } else {
                Prakriya::revised(a, q) && q.terms_seq() == ts
            }
        } else if ts[i + 1].tagged(T::Luk) {
            term_rule_applied(a, q, "7.3.89", i, replace_antya(t, "O"@))
        } else {
            q == a
        }
    } else {
        q == a
    }
}

/// Whether `b` is `q` after the main guna rules (7.3.84 - 7.3.87) for the anga at `i` and the
/// next term with text at `j`, where `ts0` are the terms before `try_guna_adesha` and `r` is
/// what it returns.
pub open spec fn main_guna_done(ts0: Seq<Term>, q: Prakriya, b: Prakriya, i: int, j: int, r: Option<()>) -> bool {
    let t0 = ts0[i].text@;
    let is_ik = t0.len() > 0 && crate::tripadi::pada_8_2::ik().contains(t0.last());
    let v = view_at(ts0, j);
    let vi_cin_nal = v[0].u_is("kvip"@) || v[0].u_is("ciN"@) || v[0].u_is("Ral"@);
    let piti = pit_sarvadhatuka(ts0, j);
    let ts = q.terms_seq();
    let t = ts[i].text@;
    let n = ts[j];
    if t == "jAgf"@ && !vi_cin_nal && !n.tagged(T::Nit) {
        r is Some && logged_rule(q, b, "7.3.85") && flagged_at(
            ts,
            b.terms_seq(),
            i,
            replace_antya(t, "ar"@),
        )
    } else if spec_upadha(t) is Some && sounds::spec_is_hrasva(spec_upadha(t)->0) {
        if ts[i].tagged(T::Abhyasta) && piti && n.text@.len() > 0 && ac().contains(n.text@[0]) {
            r is Some && Prakriya::stepped(q, b, "7.3.87")
        } else if spec_to_guna(spec_upadha(t)->0) is Some {
            r is Some && logged_rule(q, b, "7.3.86") && flagged_at(
                ts,
                b.terms_seq(),
                i,
                replace_upadha(t, spec_to_guna(spec_upadha(t)->0)->0),
            )
        } else {
            r is None && b == q
        }
    } else if is_ik {
        r is Some && logged_rule(q, b, "7.3.84") && antya_guna_at(ts, b.terms_seq(), i)
    } else {
        r is Some && b == q
    }
}

/// Whether `b` is `a` after `try_guna_adesha` on the anga at `i`, where `r` is what it returns.
pub open spec fn guna_adesha_done(a: Prakriya, b: Prakriya, i: int, r: Option<()>) -> bool {
    let ts = a.terms_seq();
    let j = next_nonempty(ts, i + 1);
    if j == -1 || ts[i].tagged(T::Agama) {
        r is None && b == a
    } else {
        let anga = ts[i];
        let t = anga.text@;
        let v = view_at(ts, j);
        let can_use_guna = guna_allowed(anga, ts, j);
        let piti = pit_sarvadhatuka(ts, j);
        let is_ik = t.len() > 0 && crate::tripadi::pada_8_2::ik().contains(t.last());
        if t == "guh"@ && starts_in(v, ac()) && can_use_guna {
            r is Some && term_rule_applied(a, b, "6.4.89", i, replace_upadha(t, "U"@))
        } else if anga.u_is("Divi~"@) || anga.u_is("kfvi~"@) {
            r is Some && b == a
        } else if t == "mid"@ && view_has(ts, j, T::Sit) {
            r is Some && logged_rule(a, b, "7.3.82") && flagged_at(ts, b.terms_seq(), i, "med"@)
        } else if is_ik && v[0].u_is("jus"@) {
            r is Some && logged_rule(a, b, "7.3.83") && antya_guna_at(ts, b.terms_seq(), i)
        } else if t == "tfnah"@ && starts_in(v, crate::asiddhavat::hal()) && piti {
            r is Some && term_rule_applied(a, b, "7.3.92", i, insert_after_last_vowel(t, "i"@))
        } else if (view_has(ts, j, T::Sarvadhatuka) || view_has(ts, j, T::Ardhadhatuka))
            && can_use_guna {
            if (t == "BU"@ || t == "sU"@) && view_has(ts, j, T::Tin) && piti {
                r is None && Prakriya::stepped(a, b, "7.3.88")
            } else {
                exists|q: Prakriya|
                    #[trigger] guna_exceptions_done(a, q, i, j) && main_guna_done(ts, q, b, i, j, r)
            }
        } else {
            r is Some && b == a
        }
    }
}

/// Replaces the vowel of the anga at `i` with its guna before a sarvadhatuka or ardhadhatuka
/// pratyaya (7.3.84, 7.3.86), with the exceptions and special cases of 6.4.89 and 7.3.82 -
/// 7.3.92. Example: buD + a + ti -> boDati. Returns `None` where no term after the anga has
/// text, where the anga is an agama, after 7.3.88, and where the short penultimate vowel has no
/// guna.
pub fn try_guna_adesha(p: &mut Prakriya, i: usize) -> (r: Option<()>)
    ensures
        guna_adesha_done(*old(p), *final(p), i as int, r),
{
    proof {
        crate::ac_sandhi::lemma_sound_lists();
        crate::asiddhavat::lemma_hal();
        reveal_strlit("O");
        reveal_strlit("ar");
        reveal_strlit("jAgf");
    }
    let ghost p0 = *p;
    let ghost ts = p.terms_seq();
    let j = match crate::tripadi::pada_8_2::next_with_text(p, i) {
        Some(j) => j,
        None => {
            return None;
        },
    };
    if p.terms()[i].has_tag(T::Agama) {
        return None;
    }
    let ik_set = sounds::s("ik");
    let ac_set = sounds::s("ac");
    let hal_set = sounds::s("hal");
    let anga = &p.terms()[i];
    let n = match p.view(j) {
        Some(v) => v,
        None => {
            return None;
        },
    };
    proof {
        assert(n.terms_of() == view_at(ts, j as int));
    }
    let can_use_guna = can_use_guna_or_vrddhi(anga, &n);
    let is_sarva_ardha = n.any(&[T::Sarvadhatuka, T::Ardhadhatuka]);
    let piti_sarvadhatuke = n.all(&[T::pit, T::Sarvadhatuka]);
    let is_ik = ik_set.contains_opt(anga.antya());
    let n_adi_ac = ac_set.contains_opt(n.adi());
    let n_adi_hal = hal_set.contains_opt(n.adi());
    let n_sit = n.has_tag(T::Sit);
    let n_jus = n.has_u("jus");
    let n_tin = n.has_tag(T::Tin);
    let vi_cin_nal = match n.get(0) {
        Some(t) => t.has_u_in(&["kvip", "ciN", "Ral"]),
        None => {
            return None;
        },
    };
    let n_last_aprkta = match n.last() {
        Some(t) => crate::filters::is_aprkta(t),
        None => {
            return None;
        },
    };
    let ghost piti = pit_sarvadhatuka(ts, j as int);
    proof {
        assert(is_sarva_ardha == (view_has(ts, j as int, T::Sarvadhatuka) || view_has(
            ts,
            j as int,
            T::Ardhadhatuka,
        ))) by {
            let tags = [T::Sarvadhatuka, T::Ardhadhatuka];
            assert(tags@[0] == T::Sarvadhatuka);
            assert(tags@[1] == T::Ardhadhatuka);
        }
        assert(piti_sarvadhatuke == piti) by {
            let tags = [T::pit, T::Sarvadhatuka];
            assert(tags@[0] == T::pit);
            assert(tags@[1] == T::Sarvadhatuka);
        }
    }
    let is_divi = anga.has_u_in(&["Divi~", "kfvi~"]);
    let is_bhu = anga.has_text_in(&["BU", "sU"]);
    proof {
        let v = view_at(ts, j as int);
        let t = ts[i as int].text@;
        assert(is_divi == (ts[i as int].u_is("Divi~"@) || ts[i as int].u_is("kfvi~"@)));
        assert(is_bhu == (t == "BU"@ || t == "sU"@));
        assert(is_ik == (t.len() > 0 && crate::tripadi::pada_8_2::ik().contains(t.last())));
        assert(n_adi_ac == starts_in(v, ac()));
        assert(n_adi_hal == starts_in(v, crate::asiddhavat::hal()));
        assert(n_jus == v[0].u_is("jus"@));
        assert(can_use_guna == guna_allowed(ts[i as int], ts, j as int));
        assert(vi_cin_nal == (v[0].u_is("kvip"@) || v[0].u_is("ciN"@) || v[0].u_is("Ral"@)));
        assert(n_last_aprkta == aprkta(ts[view_end(ts, j as int, j as int)]));
    }
    if anga.has_text("guh") && n_adi_ac && can_use_guna {
        crate::operators::term_upadha(p, "6.4.89", i, "U");
    } else if is_divi {
    } else if anga.has_text("mid") && n_sit {
        term_text_flagged(p, "7.3.82", i, "med");
    } else if is_ik && n_jus {
        term_antya_guna(p, "7.3.83", i);
    } else if anga.has_text("tfnah") && n_adi_hal && piti_sarvadhatuke {
        crate::operators::term_mit(p, "7.3.92", i, "i");
    } else if is_sarva_ardha && can_use_guna {
        if is_bhu && n_tin && piti_sarvadhatuke {
            p.step("7.3.88");
            return None;
        } else if anga.has_antya('u') && n_adi_hal && piti_sarvadhatuke {
            if anga.has_u("UrRuY") {
                if n_last_aprkta {
                    term_antya_guna(p, "7.3.91", i);
                } else {
                    crate::operators::term_antya_optional(p, "7.3.90", i, "O");
                }
            } else if p.terms()[i + 1].has_tag(T::Luk) {
                crate::operators::term_antya(p, "7.3.89", i, "O");
            }
        }
        let ghost q = *p;
        proof {
            assert(guna_exceptions_done(p0, q, i as int, j as int));
        }
        // Main guna rules.
        let anga = &p.terms()[i];
        let n = &p.terms()[j];
        let text = anga.text.as_str();
        let len = text.unicode_len();
        if anga.has_text("jAgf") && !vi_cin_nal && !n.has_tag(T::Nit) {
            let new_text = crate::operations::splice(text, len - 1, len, "ar");
            term_text_flagged(p, "7.3.85", i, new_text.as_str());
        } else if len >= 2 && sounds::is_hrasva(text.get_char(len - 2)) {
            if anga.has_tag(T::Abhyasta) && piti_sarvadhatuke && ac_set.contains_opt(n.adi()) {
                p.step("7.3.87");
            } else {
                let sub = match sounds::to_guna(text.get_char(len - 2)) {
                    Some(sub) => sub,
                    None => {
                        proof {
                            assert(guna_exceptions_done(p0, q, i as int, j as int)
                                && main_guna_done(ts, q, *p, i as int, j as int, None));
                        }
                        return None;
                    },
                };
                let new_text = crate::operations::splice(text, len - 2, len - 1, sub);
                term_text_flagged(p, "7.3.86", i, new_text.as_str());
            }
        } else if is_ik {
            term_antya_guna(p, "7.3.84", i);
        }
        proof {
            assert(guna_exceptions_done(p0, q, i as int, j as int) && main_guna_done(
                ts,
                q,
                *p,
                i as int,
                j as int,
                Some(()),
            ));
        }
    }
    Some(())
}

// Vrddhi
// ======
/// Whether `c` is a vrddhi vowel (1.1.1, vṛddhir ādaic).
pub open spec fn is_vrddhi_sound(c: char) -> bool {
    c == 'A' || c == 'E' || c == 'O'
}

/// Whether `b` is `a` after `try_nnit_vrddhi` on the anga at `i`, where `r` is what it returns.
pub open spec fn nnit_vrddhi_done(a: Prakriya, b: Prakriya, i: int, r: Option<()>) -> bool {
    let ts = a.terms_seq();
    if !(0 <= i && i + 1 < ts.len()) {
        r is None && b == a
    } else {
        let anga = ts[i];
        let t = anga.text@;
        let v = view_at(ts, i + 1);
        let proceed = ((view_has(ts, i + 1, T::Yit) || view_has(ts, i + 1, T::Rit)) && guna_allowed(
            anga,
            ts,
            i + 1,
        )) || v[0].u_is("RiN"@);
        if !proceed {
            r is None && b == a
        } else if (t == "jan"@ || t == "vaD"@) && (v[0].u_is("ciR"@) || view_has(ts, i + 1, T::Krt)) {
            r is Some && Prakriya::stepped(a, b, "7.3.35")
        } else if t.len() > 0 && ac().contains(t.last()) {
            if is_vrddhi_sound(t.last()) {
                r is Some && b == a
            } else if spec_to_vrddhi(t.last()) is None {
                r is None && b == a
            } else {
                r is Some && term_rule_applied(
                    a,
                    b,
                    "7.2.115",
                    i,
                    replace_antya(t, spec_to_vrddhi(t.last())->0),
                )
            }
        } else if spec_upadha(t) == Some('a') {
            r is Some && term_rule_applied(a, b, "7.2.116", i, replace_upadha(t, "A"@))
        } else {
            r is Some && b == a
        }
    }
}

/// Replaces the vowel of the anga at `i` with its vrddhi before a pratyaya that is Yit or Rit:
/// the final vowel by 7.2.115 (aco ñṇiti), the penultimate `a` by 7.2.116 (ata upadhāyāḥ); not
/// for `jan` and `vaD` before `ciR` or a krt (7.3.35). Returns `None` where it does nothing
/// because the next term is not such a pratyaya.
pub fn try_nnit_vrddhi(p: &mut Prakriya, i: usize) -> (r: Option<()>)
    ensures
        nnit_vrddhi_done(*old(p), *final(p), i as int, r),
{
    proof {
        crate::ac_sandhi::lemma_sound_lists();
    }
    let ghost ts = p.terms_seq();
    if i >= p.terms().len() {
        return None;
    }
    let n = match p.view(i + 1) {
        Some(v) => v,
        None => {
            return None;
        },
    };
    let anga = &p.terms()[i];
    proof {
        assert(n.terms_of() == view_at(ts, i + 1));
    }
    let yit_rit = n.any(&[T::Yit, T::Rit]);
    let can_use = can_use_guna_or_vrddhi(anga, &n);
    let n_nin = n.has_u("RiN");
    let n_cin_krt = n.has_u("ciR") || n.has_tag(T::Krt);
    let is_jan = anga.has_text_in(&["jan", "vaD"]);
    proof {
        assert(yit_rit == (view_has(ts, i + 1, T::Yit) || view_has(ts, i + 1, T::Rit))) by {
            let tags = [T::Yit, T::Rit];
            assert(tags@[0] == T::Yit);
            assert(tags@[1] == T::Rit);
        }
        assert(is_jan == (anga.text@ == "jan"@ || anga.text@ == "vaD"@));
    }
    if !yit_rit || !can_use {
        // Allow RiN even though it is Nit and will be excluded by `can_use_guna_or_vrddhi`.
        if !n_nin {
            return None;
        }
    }
    let ac_set = sounds::s("ac");
    if is_jan && n_cin_krt {
        // Declined for `ajani` etc.
        p.step("7.3.35");
    } else if ac_set.contains_opt(anga.antya()) {
        // The use of "acaH" in 7.2.115 indicates that we should ignore "iko guNavRddhI" which
        // ordinarily restricts vrddhi to ik vowels only. By ignoring this restriction, we can
        // correctly generate `vye -> vivyAya` etc.
        let antya = match anga.antya() {
            Some(c) => c,
            None => {
                return None;
            },
        };
        if !sounds::is_vrddhi(antya) {
            let sub = match sounds::to_vrddhi(antya) {
                Some(sub) => sub,
                None => {
                    return None;
                },
            };
            crate::operators::term_antya(p, "7.2.115", i, sub);
        }
    } else if anga.has_upadha('a') {
        crate::operators::term_upadha(p, "7.2.116", i, "A");
    }
    Some(())
}

/// Whether `b` is `a` after `try_vrddhi_adesha` on the anga at `i`, where `r` is what it
/// returns.
pub open spec fn vrddhi_adesha_done(a: Prakriya, b: Prakriya, i: int, r: Option<()>) -> bool {
    let ts = a.terms_seq();
    let j = next_nonempty(ts, i + 1);
    if !(0 <= i < ts.len()) || ts[i].tagged(T::FlagGunaApavada) || j == -1 {
        r is None && b == a
    } else if ts[i].text@ == "mfj"@ && !(view_has(ts, j, T::kit) || view_has(ts, j, T::Nit)) {
        r is Some && term_rule_applied(a, b, "7.2.114", i, "mArj"@)
    } else {
        r is Some && (nnit_vrddhi_done(a, b, i, None) || nnit_vrddhi_done(a, b, i, Some(())))
    }
}

/// Replaces the anga's vowel at `i` with its vrddhi: `mfj` becomes `mArj` before a pratyaya that
/// is not kit or Nit (7.2.114), and otherwise the rules of `try_nnit_vrddhi` apply. Example:
/// kf + i + ta -> kArita. Returns `None` where the anga blocks guna and vrddhi or no term after
/// it has text.
pub fn try_vrddhi_adesha(p: &mut Prakriya, i: usize) -> (r: Option<()>)
    ensures
        vrddhi_adesha_done(*old(p), *final(p), i as int, r),
{
    let ghost ts = p.terms_seq();
    if i >= p.terms().len() || p.terms()[i].has_tag(T::FlagGunaApavada) {
        return None;
    }
    let i_n = match crate::tripadi::pada_8_2::next_with_text(p, i) {
        Some(j) => j,
        None => {
            return None;
        },
    };
    let n = match p.view(i_n) {
        Some(v) => v,
        None => {
            return None;
        },
    };
    proof {
        assert(n.terms_of() == view_at(ts, i_n as int));
    }
    let is_knit = n.any(&[T::kit, T::Nit]);
    proof {
        assert(is_knit == (view_has(ts, i_n as int, T::kit) || view_has(ts, i_n as int, T::Nit))) by {
            let tags = [T::kit, T::Nit];
            assert(tags@[0] == T::kit);
            assert(tags@[1] == T::Nit);
        }
    }
    if p.terms()[i].has_text("mfj") && !is_knit {
        crate::operators::term_text(p, "7.2.114", i, "mArj");
    } else {
        try_nnit_vrddhi(p, i);
    }
    Some(())
}

// Sic-vrddhi
// ==========
/// Returns the rule if the rule choices allow the optional rule `rule`, and records the
/// decision either way.
pub fn maybe_rule(p: &mut Prakriya, rule: Rule) -> (r: Option<Rule>)
    ensures
        r == if allows(old(p).cfg().rule_choices@, rule@) {
            Some(rule)
        } else {
            None
        },
        final(p).decisions() == old(p).decisions().push(
            if allows(old(p).cfg().rule_choices@, rule@) {
                crate::prakriya::RuleChoice::Accept(rule)
            } else {
                crate::prakriya::RuleChoice::Decline(rule)
            },
        ),
        Prakriya::same_but_decisions(*old(p), *final(p)),
{
    if p.is_allowed(rule) {
        Some(rule)
    } else {
        p.decline(rule);
        None
    }
}

/// The places of `iw` and `si~c` in the view after the dhatu at `i`: (-1, k) for a view of one
/// term at `k`, (k, e) for a view of two terms, and nothing for other views.
pub open spec fn sic_places(ts: Seq<Term>, i: int) -> Option<(int, int)> {
    if i + 1 >= ts.len() {
        None
    } else {
        let e = view_end(ts, i + 1, i + 1);
        if e == i + 1 {
            Some((-1, i + 1))
        } else if e == i + 2 {
            Some((i + 1, e))
        } else {
            None
        }
    }
}

/// Whether sic-vrddhi is in question for the `si~c` at `sic`, after `iw` at `it` where `it` is
/// not -1: a `si~c` without luk before a parasmaipada ending, no lopa of `a` in the derivation,
/// and neither `si~c` nor `iw` is Nit (1.2.1).
pub open spec fn sic_in_question(a: Prakriya, it: int, sic: int) -> bool {
    let ts = a.terms_seq();
    &&& ts[sic].u_is("si~c"@)
    &&& !ts[sic].tagged(T::Luk)
    &&& ts.last().tagged(T::Parasmaipada)
    &&& !a.tag_set().contains(T::FlagAtLopa)
    &&& !ts[sic].tagged(T::Nit)
    &&& !(it >= 0 && ts[it].tagged(T::Nit))
}

/// Whether 7.2.2 (ato lrāntasya) applies to the dhatu text `t`: an `a` before a final `l` or `r`.
pub open spec fn lr_vrddhi_applies(t: Seq<char>) -> bool {
    spec_upadha(t) == Some('a') && (t.last() == 'l' || t.last() == 'r')
}

/// The rule that blocks sic-vrddhi before `iw` for the dhatu `t` (7.2.4 - 7.2.7), and whether
/// it is optional.
pub open spec fn sic_block_code(t: Term, has_it: bool) -> Option<(Seq<char>, bool)> {
    let x = t.text@;
    if !has_it || x.len() == 0 {
        None
    } else if x.last() == 'h' || x.last() == 'm' || x.last() == 'y' || x == "kzaR"@ || x
        == "Svas"@ || x == "jAgf"@ || x == "Svi"@ || t.tagged(T::edit) {
        Some(("7.2.5"@, false))
    } else if x == "UrRu"@ {
        Some(("7.2.6"@, true))
    } else if crate::asiddhavat::hal().contains(x[0]) && spec_upadha(x) == Some('a') && x.last()
        != 'C' {
        Some(("7.2.7"@, true))
    } else if crate::asiddhavat::hal().contains(x.last()) {
        Some(("7.2.4"@, true))
    } else {
        None
    }
}

/// Whether the block of `sic_block_code` applies under the rule choices `choices`.
pub open spec fn sic_blocked(choices: Seq<crate::prakriya::RuleChoice>, t: Term, has_it: bool) -> bool {
    match sic_block_code(t, has_it) {
        Some((code, optional)) => !optional || allows(choices, code),
        None => false,
    }
}

/// `t` with each `a` replaced by `A`.
pub open spec fn a_to_aa(t: Seq<char>) -> Seq<char> {
    t.map_values(|c: char| if c == 'a' { 'A' } else { c })
}

/// Whether 7.2.3 would index before the start of the dhatu text `t`, or find a vowel there
/// without a vrddhi substitute: the cases where it cannot apply.
pub open spec fn sic_conjunct_unfit(t: Seq<char>) -> bool {
    t.len() < 3 || (ac().contains(t[t.len() - 3]) && spec_to_vrddhi(t[t.len() - 3]) is None)
}

/// Whether `try_sic_vrddhi` on `a` would reach 7.2.3 for a conjunct that does not fit it.
pub open spec fn sic_vrddhi_unfit(a: Prakriya) -> bool {
    let ts = a.terms_seq();
    exists|i: int|
        #[trigger] crate::tripadi::is_last_tagged(ts, T::Dhatu, i) && match sic_places(ts, i) {
            Some((it, sic)) => {
                let t = ts[i].text@;
                &&& sic_in_question(a, it, sic)
                &&& !(t.len() > 0 && ac().contains(t.last()))
                &&& sounds::spec_is_samyoganta(t)
                &&& !sic_blocked(a.cfg().rule_choices@, ts[i], it >= 0)
                &&& sic_conjunct_unfit(t)
            },
            None => false,
        }
}

/// Whether the terms `us` are the terms `ts` after the vrddhi of 7.2.1 (sici vṛddhiḥ
/// parasmaipadeṣu) or 7.2.3 (vadavrajahalantasyācaḥ) on the dhatu at `i`, where `r` is what
/// `try_sic_vrddhi` returns.
pub open spec fn sic_vrddhi_terms(ts: Seq<Term>, us: Seq<Term>, i: int, r: Option<()>) -> bool {
    let t = ts[i].text@;
    let n = t.len();
    if n > 0 && ac().contains(t.last()) {
        if spec_to_vrddhi(t.last()) is Some {
            r is Some && crate::operators::retexted(
                ts,
                us,
                i,
                replace_antya(t, spec_to_vrddhi(t.last())->0),
            )
        } else {
            r is None && us == ts
        }
    } else if sounds::spec_is_samyoganta(t) {
        r is Some && if ac().contains(t[n - 3]) {
            crate::operators::retexted(
                ts,
                us,
                i,
                t.subrange(0, n - 3) + spec_to_vrddhi(t[n - 3])->0 + t.subrange(n - 2, n as int),
            )
        } else {
            crate::operators::retexted(ts, us, i, a_to_aa(t))
        }
    } else if spec_upadha(t) is Some && spec_to_vrddhi(spec_upadha(t)->0) is Some {
        r is Some && crate::operators::retexted(
            ts,
            us,
            i,
            replace_upadha(t, spec_to_vrddhi(spec_upadha(t)->0)->0),
        )
    } else {
        r is None && us == ts
    }
}

/// Whether `b` is `a1` after the blocking rules and the vrddhi of `try_sic_vrddhi`, where `a1`
/// is the derivation after 7.2.2.
pub open spec fn sic_vrddhi_rest(a1: Prakriya, b: Prakriya, i: int, has_it: bool, r: Option<()>) -> bool {
    let ts = a1.terms_seq();
    if has_it && ts[i].text@.len() == 0 {
        r is None && b == a1
    } else if sic_blocked(a1.cfg().rule_choices@, ts[i], has_it) {
        r is None && Prakriya::revised(a1, b) && b.terms_seq() == ts
    } else {
        Prakriya::revised(a1, b) && sic_vrddhi_terms(ts, b.terms_seq(), i, r)
    }
}

/// Whether `b` is `a` after `try_sic_vrddhi`, where `r` is what it returns.
pub open spec fn sic_vrddhi_done(a: Prakriya, b: Prakriya, r: Option<()>) -> bool {
    let ts = a.terms_seq();
    &&& (forall|i: int| !crate::tripadi::is_last_tagged(ts, T::Dhatu, i)) ==> r is None && b == a
    &&& forall|i: int|
        #[trigger] crate::tripadi::is_last_tagged(ts, T::Dhatu, i) ==> match sic_places(ts, i) {
            Some((it, sic)) => if sic_in_question(a, it, sic) {
                exists|a1: Prakriya|
                    #[trigger] lr_vrddhi_step(a, a1, i) && sic_vrddhi_rest(a1, b, i, it >= 0, r)
            } else {
                r is None && b == a
            },
            None => r is None && b == a,
        }
}

/// Whether `a1` is `a` after 7.2.2 (ato lrāntasya) on the dhatu at `i`.
pub open spec fn lr_vrddhi_step(a: Prakriya, a1: Prakriya, i: int) -> bool {
    let t = a.terms_seq()[i].text@;
    if lr_vrddhi_applies(t) {
        term_rule_applied(a, a1, "7.2.2", i, replace_upadha(t, "A"@))
    } else {
        a1 == a
    }
}

fn a_to_aa_text(text: &str) -> (r: String)
    ensures
        r@ == a_to_aa(text@),
{
    let cs = crate::strings::chars_of(text);
    let mut out = String::new();
    let mut k: usize = 0;
    while k < cs.len()
        invariant
            k <= cs@.len(),
            cs@ == text@,
            out@ == a_to_aa(text@).subrange(0, k as int),
        decreases cs@.len() - k,
    {
        let c = cs[k];
        let d = if c == 'a' {
            'A'
        } else {
            c
        };
        crate::strings::push_char(&mut out, d);
        assert(a_to_aa(text@).subrange(0, k + 1) =~= a_to_aa(text@).subrange(0, k as int).push(d));
        k = k + 1;
    }
    assert(a_to_aa(text@).subrange(0, cs@.len() as int) =~= a_to_aa(text@));
    out
}

/// Applies the vrddhi of 7.2.1 or 7.2.3 to the dhatu at `i`.
fn sic_vrddhi_at(p: &mut Prakriya, i: usize, ac_set: &SoundSet) -> (r: Option<()>)
    requires
        i < old(p).terms_seq().len(),
        ac_set@ == ac(),
        sounds::spec_is_samyoganta(old(p).terms_seq()[i as int].text@) && !(old(
            p,
        ).terms_seq()[i as int].text@.len() > 0 && ac().contains(
            old(p).terms_seq()[i as int].text@.last(),
        )) ==> !sic_conjunct_unfit(old(p).terms_seq()[i as int].text@),
    ensures
        Prakriya::rewrote(*old(p), *final(p)),
        sic_vrddhi_terms(old(p).terms_seq(), final(p).terms_seq(), i as int, r),
{
    proof {
        crate::prakriya::lemma_rewrote_refl(*p);
    }
    let ghost p0 = *p;
    let dhatu = &p.terms()[i];
    let text = dhatu.text.as_str();
    let len = text.unicode_len();
    if ac_set.contains_opt(dhatu.antya()) {
        let antya = text.get_char(len - 1);
        let sub = match sounds::to_vrddhi(antya) {
            Some(sub) => sub,
            None => {
                return None;
            },
        };
        crate::operators::term_antya(p, "7.2.1", i, sub);
    } else if crate::filters::is_samyoganta(dhatu) {
        // 7.2.3 applies to the final vowel generally, even if samyoganta
        let n_3 = text.get_char(len - 3);
        if ac_set.contains_char(n_3) {
            let sub = match sounds::to_vrddhi(n_3) {
                Some(sub) => sub,
                None => {
                    return None;
                },
            };
            let new_text = crate::operations::splice(text, len - 3, len - 2, sub);
            crate::operators::term_text(p, "7.2.3", i, new_text.as_str());
        } else {
            // e.g. "mansj", "pracC"
            let new_text = a_to_aa_text(text);
            crate::operators::term_text(p, "7.2.3", i, new_text.as_str());
        }
    } else {
        let sub = match dhatu.upadha() {
            Some(u) => match sounds::to_vrddhi(u) {
                Some(sub) => sub,
                None => {
                    return None;
                },
            },
            None => {
                return None;
            },
        };
        crate::operators::term_upadha(p, "7.2.3", i, sub);
    }
    proof {
        crate::prakriya::lemma_rewrote_refl(*p);
    }
    Some(())
}

/// Applies vrddhi to the dhatu before the `si~c` of a parasmaipada ending (7.2.1, sici vṛddhiḥ
/// parasmaipadeṣu; 7.2.2, 7.2.3), except where 7.2.4 - 7.2.7 block it before `iw`. This must
/// follow `it_agama` because of 7.2.4. Returns `None` where it does nothing, where a rule blocks
/// it, and where the vowel has no vrddhi.
pub fn try_sic_vrddhi(p: &mut Prakriya) -> (r: Option<()>)
    requires
        !sic_vrddhi_unfit(*old(p)),
    ensures
        sic_vrddhi_done(*old(p), *final(p), r),
{
    proof {
        crate::ac_sandhi::lemma_sound_lists();
        crate::asiddhavat::lemma_hal();
        reveal_strlit("A");
    }
    let ghost p0 = *p;
    let ghost ts = p.terms_seq();
    let i = match p.find_last(T::Dhatu) {
        Some(i) => i,
        None => {
            return None;
        },
    };
    proof {
        assert(crate::tripadi::is_last_tagged(ts, T::Dhatu, i as int));
        assert forall|k: int| crate::tripadi::is_last_tagged(ts, T::Dhatu, k) implies k == i by {}
    }
    if i >= p.terms().len() - 1 {
        return None;
    }
    let vikarana = match p.view(i + 1) {
        Some(v) => v,
        None => {
            return None;
        },
    };
    let size = vikarana.slice().len();
    let (i_it, i_sic) = if size == 1 {
        (None, vikarana.start())
    } else if size == 2 {
        (Some(vikarana.start()), vikarana.end())
    } else {
        return None;
    };
    let ghost places = sic_places(ts, i as int);
    let ghost it_idx: int = match i_it {
        Some(x) => x as int,
        None => -1,
    };
    proof {
        assert(places == Some((it_idx, i_sic as int)));
    }
    let i_tin = p.terms().len() - 1;
    let it_nit = match i_it {
        Some(x) => p.terms()[x].has_tag(T::Nit),
        None => false,
    };
    let sic = &p.terms()[i_sic];
    let tin = &p.terms()[i_tin];
    if !(sic.has_u("si~c") && !sic.has_tag(T::Luk) && tin.has_tag(T::Parasmaipada)) {
        return None;
    }
    // A dhatu followed by ArdhadhAtuka has its final `a` deleted by 6.4.48.
    // But in the context of the rules below, we should ignore the effect of
    // 6.4.48 per 1.1.57 (acaH parasmin pUrvavidhau) and cause no changes for
    // such roots. (Motivating examples: agopAyIt, avadhIt)
    if p.has_tag(T::FlagAtLopa) {
        return None;
    }
    // 1.2.1 -- skip vrddhi for these sounds
    // HACK: check only sic, atidesha should not apply to it.
    if sic.has_tag(T::Nit) || it_nit {
        return None;
    }
    proof {
        assert(sic_in_question(p0, it_idx, i_sic as int));
    }
    let dhatu = &p.terms()[i];
    if dhatu.has_upadha('a') && (dhatu.has_antya('l') || dhatu.has_antya('r')) {
        // apavAda to 7.2.7 below, so run this first.
        crate::operators::term_upadha(p, "7.2.2", i, "A");
    }
    let ghost a1 = *p;
    proof {
        assert(lr_vrddhi_step(p0, a1, i as int));
        crate::prakriya::lemma_rewrote_refl(a1);
        crate::prakriya::lemma_rewrote_revised(a1, a1);
    }
    let ac_set = sounds::s("ac");
    let hal_set = sounds::s("hal");
    let dhatu = &p.terms()[i];
    let has_it = i_it.is_some();
    let mut block: Option<Rule> = None;
    // TODO: don't add hack for tug-Agama. Should reorder.
    if has_it {
        let antya = match dhatu.antya() {
            Some(c) => c,
            None => {
                return None;
            },
        };
        if antya == 'h' || antya == 'm' || antya == 'y' || dhatu.has_text_in(
            &["kzaR", "Svas", "jAgf", "Svi"],
        ) || dhatu.has_tag(T::edit) {
            block = Some("7.2.5");
        } else if dhatu.has_text("UrRu") {
            block = maybe_rule(p, "7.2.6");
        } else if hal_set.contains_opt(dhatu.adi()) && dhatu.has_upadha('a') && !dhatu.has_antya(
            'C',
        ) {
            block = maybe_rule(p, "7.2.7");
        } else if hal_set.contains_opt(dhatu.antya()) {
            block = maybe_rule(p, "7.2.4");
        }
    }
    let ghost a2 = *p;
    proof {
        assert(Prakriya::revised(a1, a2)) by {
            assert(a2.decisions().subrange(0, a1.decisions().len() as int) =~= a1.decisions());
        }
        assert(block is Some == sic_blocked(a1.cfg().rule_choices@, a1.terms_seq()[i as int], has_it));
    }
    if let Some(c) = block {
        p.step(c);
        proof {
            assert(p.steps().subrange(0, a1.steps().len() as int) =~= a1.steps());
        }
        return None;
    }
    proof {
        if sounds::spec_is_samyoganta(a1.terms_seq()[i as int].text@) {
            assert(a1 == p0);
        }
    }
    let r = sic_vrddhi_at(p, i, &ac_set);
    proof {
        crate::prakriya::lemma_rewrote_revised(a2, *p);
        crate::prakriya::lemma_revised_trans(a1, a2, *p);
        assert(sic_vrddhi_rest(a1, *p, i as int, has_it, r));
    }
    r
}


/// The dhatus of the `Sam` class whose upadha becomes long before `Syan` (7.3.74).
pub open spec fn sham_adi() -> Seq<&'static str> {
    seq!["Samu~", "tamu~", "damu~", "Sramu~", "Bramu~", "kzamU~", "klamu~", "madI~"]
}

/// The dhatus that 7.3.78 replaces before a sit pratyaya.
pub open spec fn pa_ghra() -> Seq<&'static str> {
    seq!["pA\\", "GrA\\", "DmA\\", "zWA\\", "mnA\\", "dA\\R", "df\\Si~r", "f\\", "sf\\", "Sa\\dx~", "za\\dx~"]
}

/// What 7.3.78 puts for the dhatus of `pa_ghra`, in the same order.
pub open spec fn piba_jighra() -> Seq<&'static str> {
    seq!["piba", "jiGra", "Dama", "tizWa", "mana", "yacCa", "paSya", "fcCa", "DO", "SIya", "sIda"]
}

/// `text` with its long `U`, `F` and `I` made short (7.3.80).
pub open spec fn shorten_pu(text: Seq<char>) -> Seq<char> {
    text.map_values(
        |c: char|
            if c == 'U' {
                'u'
            } else if c == 'F' {
                'f'
            } else if c == 'I' {
                'i'
            } else {
                c
            },
    )
}

fn shorten_pu_text(s: &str) -> (r: String)
    ensures
        r@ == shorten_pu(s@),
{
    let cs = crate::strings::chars_of(s);
    let mut out: Vec<char> = Vec::new();
    let mut k: usize = 0;
    while k < cs.len()
        invariant
            k <= cs@.len(),
            cs@ == s@,
            out@ == shorten_pu(s@.subrange(0, k as int)),
        decreases cs@.len() - k,
    {
        let c = cs[k];
        let d = if c == 'U' {
            'u'
        } else if c == 'F' {
            'f'
        } else if c == 'I' {
            'i'
        } else {
            c
        };
        out.push(d);
        assert(shorten_pu(s@.subrange(0, k + 1)) =~= shorten_pu(s@.subrange(0, k as int)).push(d));
        k = k + 1;
    }
    assert(s@.subrange(0, cs@.len() as int) =~= s@);
    crate::strings::string_from_chars(&out)
}

/// The rule of 7.3.71 - 7.3.80 that applies to the dhatu at `i` before the sit pratyaya at `n`,
/// and the text it gives the dhatu: 7.3.71 drops a final `o` before `Syan`; 7.3.74 lengthens the
/// upadha of the `Sam` class of the fourth gana before `Syan`; 7.3.75 lengthens `zWiv` and
/// `klam`; 7.3.76 lengthens `kram` before a parasmaipada ending; 7.3.77 makes the final of `iz`,
/// `gam` and `yam` into `C`; 7.3.78 replaces `pA` and the others (but for those of the second and
/// third gana); 7.3.79 replaces `jYA` and `jan` with `jA`; 7.3.80 shortens the dhatus of `pu_adi`
/// of the fifth and ninth gana.
pub open spec fn shiti_rule(ts: Seq<Term>, i: int, n: int, pu_adi: Seq<&str>) -> Option<
    (Seq<char>, Seq<char>, bool),
> {
    let anga = ts[i];
    let nt = ts[n];
    let x = anga.text@;
    if !nt.tagged(T::Sit) {
        None
    } else if spec_antya(x) == Some('o') && nt.u_is("Syan"@) {
        Some(("7.3.71"@, replace_antya(x, ""@), false))
    } else if crate::sanadi::u_in(anga, sham_adi()) && nt.u_is("Syan"@) && anga.gana == Some(4i32) {
        Some(("7.3.74"@, replace_upadha(x, "A"@), false))
    } else if x == "zWiv"@ {
        Some(("7.3.75"@, "zWIv"@, false))
    } else if x == "klam"@ {
        Some(("7.3.75"@, "klAm"@, false))
    } else if x == "kram"@ && ts.last().tagged(T::Parasmaipada) {
        Some(("7.3.76"@, "krAm"@, false))
    } else if crate::sanadi::u_in(anga, seq!["izu~", "ga\\mx~", "ya\\ma~"]) {
        Some(("7.3.77"@, replace_antya(x, "C"@), false))
    } else if crate::sanadi::u_in(anga, pa_ghra()) && anga.gana != Some(2i32) && anga.gana != Some(3i32) {
        Some(
            (
                "7.3.78"@,
                piba_jighra()[crate::operators::str_index(pa_ghra(), anga.u->0@)]@,
                anga.u_is("sf\\"@),
            ),
        )
    } else if crate::sanadi::u_in(anga, seq!["jYA\\", "janI~\\"]) {
        Some(("7.3.79"@, "jA"@, false))
    } else if crate::sanadi::u_in(anga, pu_adi) && (anga.gana == Some(5i32) || anga.gana == Some(9i32)) {
        Some(("7.3.80"@, shorten_pu(x), false))
    } else {
        None
    }
}

/// Whether `b` is `a` after the rules before a sit pratyaya (`shiti_rule`) on the last dhatu and
/// the next term with text after it; an optional rule records its decision.
pub open spec fn shiti_done(a: Prakriya, b: Prakriya, pu_adi: Seq<&str>) -> bool {
    let ts = a.terms_seq();
    let i = crate::vikarana::last_tagged(ts, T::Dhatu);
    let n = next_nonempty(ts, i + 1);
    if i == -1 || n == -1 || shiti_rule(ts, i, n, pu_adi) is None {
        b == a
    } else {
        let c = shiti_rule(ts, i, n, pu_adi)->0;
        let optional = c.2;
        if optional && !allows(a.cfg().rule_choices@, "7.3.78"@) {
            &&& b.terms_seq() == ts
            &&& b.decisions() == a.decisions().push(RuleChoice::Decline("7.3.78"))
            &&& b.steps() == a.steps()
        } else {
            &&& crate::operators::retexted(ts, b.terms_seq(), i, c.1)
            &&& b.decisions() == if optional {
                a.decisions().push(RuleChoice::Accept("7.3.78"))
            } else {
                a.decisions()
            }
            &&& (a.cfg().log_steps ==> a.steps().len() < b.steps().len()
                && b.steps()[a.steps().len() as int].rule@ == c.0)
        }
    }
}

/// Runs the rules that change the last dhatu before a sit pratyaya (7.3.71 - 7.3.80), as
/// `shiti_rule` says; `pu_adi` are the dhatus of 7.3.80.
pub fn try_shiti(p: &mut Prakriya, pu_adi: &[&str])
    ensures
        Prakriya::revised(*old(p), *final(p)),
        shiti_done(*old(p), *final(p), pu_adi@),
{
    let ghost p0 = *p;
    let ghost ts = p.terms_seq();
    proof {
        crate::prakriya::lemma_rewrote_refl(p0);
        assert(p0.decisions().subrange(0, p0.decisions().len() as int) =~= p0.decisions());
        assert(p0.steps().subrange(0, p0.steps().len() as int) =~= p0.steps());
    }
    let found = p.find_last(T::Dhatu);
    proof {
        crate::vikarana::lemma_find_last(ts, T::Dhatu, found);
    }
    let i = match found {
        Some(i) => i,
        None => return,
    };
    let i_n = match p.find_next_where(i, shiti_not_empty) {
        Some(n) => n,
        None => {
            proof {
                crate::term::lemma_next_nonempty_none(ts, i + 1);
            }
            return;
        },
    };
    proof {
        crate::term::lemma_next_nonempty_found(ts, i + 1, i_n as int);
    }
    let sham = ["Samu~", "tamu~", "damu~", "Sramu~", "Bramu~", "kzamU~", "klamu~", "madI~"];
    assert(sham@ =~= sham_adi());
    let pa = ["pA\\", "GrA\\", "DmA\\", "zWA\\", "mnA\\", "dA\\R", "df\\Si~r", "f\\", "sf\\", "Sa\\dx~", "za\\dx~"];
    assert(pa@ =~= pa_ghra());
    let piba = ["piba", "jiGra", "Dama", "tizWa", "mana", "yacCa", "paSya", "fcCa", "DO", "SIya", "sIda"];
    assert(piba@ =~= piba_jighra());
    let izu = ["izu~", "ga\\mx~", "ya\\ma~"];
    assert(izu@ =~= seq!["izu~", "ga\\mx~", "ya\\ma~"]);
    let jna = ["jYA\\", "janI~\\"];
    assert(jna@ =~= seq!["jYA\\", "janI~\\"]);
    let len = p.terms().len();
    let anga = &p.terms()[i];
    let n = &p.terms()[i_n];
    if !n.has_tag(T::Sit) {
        return;
    }
    let last_para = p.terms()[len - 1].has_tag(T::Parasmaipada);
    assert(ts.last() == ts[len - 1]);
    let syan = n.has_u("Syan");
    let c71 = anga.antya() == Some('o') && syan;
    let c74 = anga.has_u_in(&sham) && syan && anga.has_gana(4);
    let zwiv = anga.has_text("zWiv");
    let klam = anga.has_text("klam");
    let c76 = anga.has_text("kram") && last_para;
    let c77 = anga.has_u_in(&izu);
    let c78 = anga.has_u_in(&pa) && !anga.has_gana(2) && !anga.has_gana(3);
    let is_sr = anga.has_u("sf\\");
    let c79 = anga.has_u_in(&jna);
    let c80 = anga.has_u_in(pu_adi) && (anga.has_gana(5) || anga.has_gana(9));
    if c71 {
        crate::operators::term_antya(p, "7.3.71", i, "");
    } else if c74 {
        // Check ganas to avoid `Bramu~ anavasTAne` (BrAmyati).
        crate::operators::term_upadha(p, "7.3.74", i, "A");
    } else if zwiv {
        crate::operators::term_text(p, "7.3.75", i, "zWIv");
    } else if klam {
        crate::operators::term_text(p, "7.3.75", i, "klAm");
    } else if c76 {
        crate::operators::term_text(p, "7.3.76", i, "krAm");
    } else if c77 {
        crate::operators::term_antya(p, "7.3.77", i, "C");
    } else if c78 {
        // Check ganas above to avoid `pA rakzaRe` (pAti), `f gatO` (iyarti)
        let u = match &anga.u {
            Some(u) => crate::strings::string_from(u.as_str()),
            None => return,
        };
        proof {
            crate::operators::lemma_str_index(pa_ghra(), u@);
        }
        let sub = match crate::operators::yatha(u.as_str(), &pa, &piba) {
            Some(x) => x,
            None => return,
        };
        if is_sr {
            // sartervegitāyāṃ gatau dhāvādeśam icchanti। anyatra sarati, anusarati
            // ityeva bhavati. (kAzikA)
            if p.is_allowed("7.3.78") {
                let ghost q = *p;
                crate::operators::term_text(p, "7.3.78", i, sub);
                let ghost q2 = *p;
                p.step("7.3.78");
                proof {
                    assert(p.steps()[p0.steps().len() as int] == p.steps().subrange(
                        0,
                        q2.steps().len() as int,
                    )[p0.steps().len() as int]);
                    assert(p.decisions().subrange(0, p0.decisions().len() as int) =~= p0.decisions());
                    assert(p.steps().subrange(0, p0.steps().len() as int) =~= p.steps().subrange(
                        0,
                        q2.steps().len() as int,
                    ).subrange(0, p0.steps().len() as int));
                }
            } else {
                p.decline("7.3.78");
                proof {
                    assert(p.decisions().subrange(0, p0.decisions().len() as int) =~= p0.decisions());
                }
            }
        } else {
            crate::operators::term_text(p, "7.3.78", i, sub);
            let ghost q2 = *p;
            p.step("7.3.78");
            proof {
                if p0.cfg().log_steps {
                    assert(p.steps()[p0.steps().len() as int] == p.steps().subrange(
                        0,
                        q2.steps().len() as int,
                    )[p0.steps().len() as int]);
                }
                assert(p.steps().subrange(0, p0.steps().len() as int) =~= p.steps().subrange(
                    0,
                    q2.steps().len() as int,
                ).subrange(0, p0.steps().len() as int));
            }
        }
    } else if c79 {
        crate::operators::term_text(p, "7.3.79", i, "jA");
    } else if c80 {
        // All of these dhatus end in vowels.
        let short = shorten_pu_text(anga.text.as_str());
        crate::operators::term_text(p, "7.3.80", i, short.as_str());
    }
    proof {
        assert(p.steps().subrange(0, p0.steps().len() as int) =~= p.steps().subrange(
            0,
            p0.steps().len() as int,
        ));
    }
}

fn shiti_not_empty(t: &Term) -> (b: bool)
    ensures
        b == (t.text@.len() > 0),
{
    t.text.as_str().unicode_len() > 0
}


/// Whether the term `t` can take 7.4.7 (ur ft): a dhatu whose upadha is of the class of `f`,
/// before `Ric` or `RiN` and `caN`.
pub open spec fn f_upadha(t: Term) -> bool {
    let u = spec_upadha(t.text@);
    u == Some('f') || u == Some('F') || u == Some('x') || u == Some('X')
}

/// Whether `b` is `a` after an optional rule `code` that gives the term at `i` the text `x` and
/// marks it as blocking guna, where the rule choices allow it, and records its decision.
pub open spec fn optional_flagged(a: Prakriya, b: Prakriya, i: int, code: Seq<char>, x: Seq<char>, accept: RuleChoice, decline: RuleChoice) -> bool {
    let ts = a.terms_seq();
    &&& b.tag_set() == a.tag_set()
    &&& b.cfg() == a.cfg()
    &&& a.steps().len() <= b.steps().len()
    &&& b.steps().subrange(0, a.steps().len() as int) == a.steps()
    &&& if allows(a.cfg().rule_choices@, code) {
        &&& b.decisions() == a.decisions().push(accept)
        &&& b.terms_seq() == ts.update(i, b.terms_seq()[i])
        &&& b.terms_seq()[i].text@ == x
        &&& b.terms_seq()[i].tags@ == ts[i].tags@.insert(T::FlagGunaApavada)
        &&& same_but_text_and_tags(ts[i], b.terms_seq()[i])
    } else {
        &&& b.decisions() == a.decisions().push(decline)
        &&& b.terms_seq() == ts
    }
}

fn optional_flag(p: &mut Prakriya, code: Rule, i: usize, text: &str)
    requires
        i < old(p).terms_seq().len(),
    ensures
        optional_flagged(*old(p), *final(p), i as int, code@, text@, RuleChoice::Accept(code), RuleChoice::Decline(code)),
{
    let ghost p0 = *p;
    if p.is_allowed(code) {
        if let Some(t) = p.get_mut(i) {
            t.text = crate::strings::string_from(text);
            t.add_tag(T::FlagGunaApavada);
        }
        p.step(code);
    } else {
        p.decline(code);
    }
    proof {
        assert(p.steps().subrange(0, p0.steps().len() as int) =~= p0.steps());
    }
}

/// Whether `b` is `a` after the rules before guna for a dhatu before `caN` (7.4.7, 7.4.12), on
/// the first dhatu, by way of the state `m`: 7.4.7 optionally makes its upadha `f` before `Ric`
/// or `RiN` and `caN`; then 7.4.12 optionally makes the final of `SF`, `dF` and `pF` short
/// before liT, but for the tenth gana.
pub open spec fn cani_before_guna(a: Prakriya, m: Prakriya, b: Prakriya) -> bool {
    let ts = a.terms_seq();
    let i = crate::ardhadhatuka::first_tagged(ts, T::Dhatu);
    if i == -1 {
        b == a
    } else {
        let nici = i + 1 < ts.len() && crate::sanadi::u_in(ts[i + 1], seq!["Ric", "RiN"]);
        let cani = i + 2 < ts.len() && ts[i + 2].u_is("caN"@);
        &&& if f_upadha(ts[i]) && nici && cani {
            optional_flagged(a, m, i, "7.4.7"@, replace_upadha(ts[i].text@, "f"@), RuleChoice::Accept("7.4.7"), RuleChoice::Decline("7.4.7"))
        } else {
            m == a
        }
        &&& {
            let ms = m.terms_seq();
            if crate::term::seq_has_str(seq!["SF", "dF", "pF"], ms[i].text@) && crate::term::strings_have(ms.last().lakshana@, "li~w"@)
                && ms[i].gana != Some(10i32) {
                optional_flagged(m, b, i, "7.4.12"@, replace_antya(ms[i].text@, "f"@), RuleChoice::Accept("7.4.12"), RuleChoice::Decline("7.4.12"))
            } else {
                b == m
            }
        }
    }
}

/// Whether the terms `us` are the terms `ts` after 7.1.101 (upaDAyAS ca): each dhatu whose
/// upadha is `F` takes `ir` for it.
pub open spec fn ir_for_f(ts: Seq<Term>, us: Seq<Term>) -> bool {
    &&& us.len() == ts.len()
    &&& forall|k: int|
        0 <= k < ts.len() ==> if (#[trigger] ts[k]).tagged(T::Dhatu) && spec_upadha(ts[k].text@) == Some('F') {
            us[k].text@ == replace_upadha(ts[k].text@, "ir"@) && same_but_text(ts[k], us[k])
        } else {
            us[k] == ts[k]
        }
}

/// Runs the rules that must come before dvitva: those before guna for a dhatu before `caN`
/// (`cani_before_guna`), then 7.1.101 on each dhatu (`ir_for_f`).
pub fn hacky_before_dvitva(p: &mut Prakriya)
    ensures
        exists|m: Prakriya, c: Prakriya|
            #[trigger] cani_before_guna(*old(p), m, c) && ir_for_f(c.terms_seq(), final(p).terms_seq())
                && c.tag_set() == final(p).tag_set() && c.cfg() == final(p).cfg() && c.decisions()
                == final(p).decisions() && c.steps().len() <= final(p).steps().len() && final(p).steps().subrange(
                0,
                c.steps().len() as int,
            ) == c.steps(),
{
    let ghost p0 = *p;
    let ghost ts = p.terms_seq();
    let rd = p.find_first(T::Dhatu);
    proof {
        crate::ardhadhatuka::lemma_find_first(ts, T::Dhatu, rd);
    }
    let ghost mut m: Prakriya = p0;
    if let Some(i) = rd {
        let n = p.terms().len();
        let ni = ["Ric", "RiN"];
        assert(ni@ =~= seq!["Ric", "RiN"]);
        let nici = n - i > 1 && p.terms()[i + 1].has_u_in(&ni);
        let cani = n - i > 2 && p.terms()[i + 2].has_u("caN");
        let up = p.terms()[i].upadha();
        // 7.4.7 blocks guna.
        if (up == Some('f') || up == Some('F') || up == Some('x') || up == Some('X')) && nici && cani {
            let x = crate::operators::set_upadha(p.terms()[i].text.as_str(), "f");
            optional_flag(p, "7.4.7", i, x.as_str());
        }
        proof {
            m = *p;
        }
        let sf = ["SF", "dF", "pF"];
        assert(sf@ =~= seq!["SF", "dF", "pF"]);
        let len = p.terms().len();
        let d = &p.terms()[i];
        let tl = d.text.as_str().unicode_len();
        proof {
            reveal_strlit("SF");
            reveal_strlit("dF");
            reveal_strlit("pF");
        }
        if d.has_text_in(&sf) && p.terms()[len - 1].has_lakshana("li~w") && !d.has_gana(10) {
            assert(tl > 0);
            let y = crate::operations::splice(d.text.as_str(), tl - 1, tl, "f");
            optional_flag(p, "7.4.12", i, y.as_str());
        }
    }
    let ghost c = *p;
    assert(cani_before_guna(p0, m, c));
    let n = p.terms().len();
    let mut k: usize = 0;
    while k < n
        invariant
            k <= n,
            n == c.terms_seq().len(),
            p.terms_seq().len() == n,
            p.tag_set() == c.tag_set(),
            p.cfg() == c.cfg(),
            p.decisions() == c.decisions(),
            c.steps().len() <= p.steps().len(),
            p.steps().subrange(0, c.steps().len() as int) == c.steps(),
            forall|j: int| k <= j < n ==> p.terms_seq()[j] == c.terms_seq()[j],
            forall|j: int|
                0 <= j < k ==> if (#[trigger] c.terms_seq()[j]).tagged(T::Dhatu) && spec_upadha(c.terms_seq()[j].text@) == Some('F') {
                    p.terms_seq()[j].text@ == replace_upadha(c.terms_seq()[j].text@, "ir"@) && same_but_text(c.terms_seq()[j], p.terms_seq()[j])
                } else {
                    p.terms_seq()[j] == c.terms_seq()[j]
                },
        decreases n - k,
    {
        if p.terms()[k].has_tag(T::Dhatu) && p.terms()[k].upadha() == Some('F') {
            let ghost q = *p;
            crate::operators::term_upadha(p, "7.1.101", k, "ir");
            proof {
                assert(p.steps().subrange(0, c.steps().len() as int) =~= p.steps().subrange(0, q.steps().len() as int).subrange(0, c.steps().len() as int));
            }
        }
        k = k + 1;
    }
}


/// Whether `t` can be the anga of 7.3.93 - 7.3.98: it has a text and is no agama.
pub open spec fn iit_anga_ok(t: Term) -> bool {
    t.text@.len() > 0 && !t.tagged(T::Agama)
}

/// The index of the last term before `j` that `iit_anga_ok` accepts; -1 where there is none.
pub open spec fn prev_anga(ts: Seq<Term>, j: int) -> int
    decreases j,
{
    if j <= 0 || j > ts.len() {
        -1
    } else if iit_anga_ok(ts[j - 1]) {
        j - 1
    } else {
        prev_anga(ts, j - 1)
    }
}

proof fn lemma_prev_anga(ts: Seq<Term>, j: int, r: Option<usize>)
    requires
        0 <= j < ts.len(),
        r matches Some(i) ==> i < j && iit_anga_ok(ts[i as int]) && forall|k: int|
            i < k < j ==> !iit_anga_ok(#[trigger] ts[k]),
        r is None ==> forall|k: int| 0 <= k < j ==> !iit_anga_ok(#[trigger] ts[k]),
    ensures
        r matches Some(i) ==> prev_anga(ts, j) == i,
        r is None ==> prev_anga(ts, j) == -1,
    decreases j,
{
    if j > 0 {
        if let Some(i) = r {
            if (i as int) < j - 1 {
                assert(!iit_anga_ok(ts[j - 1]));
                lemma_prev_anga(ts, j - 1, r);
            }
        } else {
            assert(!iit_anga_ok(ts[j - 1]));
            lemma_prev_anga(ts, j - 1, r);
        }
    }
}

fn is_iit_anga(t: &Term) -> (b: bool)
    ensures
        b == iit_anga_ok(*t),
{
    t.text.as_str().unicode_len() > 0 && !t.has_tag(T::Agama)
}

fn has_text(t: &Term) -> (b: bool)
    ensures
        b == (t.text@.len() > 0),
{
    t.text.as_str().unicode_len() > 0
}

/// The number of sounds in the texts of `ts`.
pub open spec fn total_len(ts: Seq<Term>) -> int
    decreases ts.len(),
{
    if ts.len() == 0 {
        0
    } else {
        total_len(ts.drop_last()) + ts.last().text@.len()
    }
}

/// The rule of 7.3.93 - 7.3.98 that adds the agama `Iw` before the sarvadhatuka that starts with
/// a consonant at `ns`, after the anga at `ia`, if one does: 7.3.93 after `brU` before a pit;
/// optionally 7.3.94 after `yaN` before a pit and 7.3.95 after `tu` and the others; before an
/// aprkta (of one sound), 7.3.96 after `as` and `si~c` and 7.3.98 after `rud` and the others.
/// The second part names the optional rule that is asked, if any.
pub open spec fn iit_rule(p: Prakriya, ia: int, ns: int) -> (Option<Seq<char>>, Option<Seq<char>>) {
    let ts = p.terms_seq();
    let anga = ts[ia];
    let cs = p.cfg().rule_choices@;
    let piti = crate::it_agama::vtagged(ts, ns, T::pit);
    let aprkta = total_len(crate::it_agama::vterms(ts, ns)) == 1;
    if !(crate::it_agama::in_s(crate::it_agama::vadi(ts, ns), "hal"@) && crate::it_agama::vtagged(
        ts,
        ns,
        T::Sarvadhatuka,
    )) {
        (None, None)
    } else if anga.text@ == "brU"@ && piti {
        (Some("7.3.93"@), None)
    } else if anga.u_is("yaN"@) && piti {
        (if allows(cs, "7.3.94"@) { Some("7.3.94"@) } else { None }, Some("7.3.94"@))
    } else if crate::sanadi::u_in(anga, seq!["tu\\", "ru", "zwu\\Y", "Sam", "ama~"]) {
        (if allows(cs, "7.3.95"@) { Some("7.3.95"@) } else { None }, Some("7.3.95"@))
    } else if aprkta && crate::sanadi::u_in(anga, seq!["asa~", "si~c"]) {
        (Some("7.3.96"@), None)
    } else if aprkta && crate::sanadi::u_in(anga, seq!["rud", "svap", "Svas", "praR", "jakz"]) {
        (Some("7.3.98"@), None)
    } else {
        (None, None)
    }
}

/// The decisions after `iit_agama` asks its optional rule, if any.
pub open spec fn iit_decisions(p: Prakriya, ia: int, ns: int) -> Seq<RuleChoice> {
    let asked = iit_rule(p, ia, ns).1;
    let cs = p.cfg().rule_choices@;
    let ts = p.terms_seq();
    if asked is None {
        p.decisions()
    } else if ts[ia].u_is("yaN"@) && crate::it_agama::vtagged(ts, ns, T::pit) {
        p.decisions().push(
            if allows(cs, "7.3.94"@) {
                RuleChoice::Accept("7.3.94")
            } else {
                RuleChoice::Decline("7.3.94")
            },
        )
    } else {
        p.decisions().push(
            if allows(cs, "7.3.95"@) {
                RuleChoice::Accept("7.3.95")
            } else {
                RuleChoice::Decline("7.3.95")
            },
        )
    }
}

fn is_aprkta(ts: &[Term]) -> (r: bool)
    ensures
        r == (total_len(ts@) == 1),
{
    let mut total: usize = 0;
    let mut k: usize = 0;
    while k < ts.len()
        invariant
            k <= ts@.len(),
            total == if total_len(ts@.subrange(0, k as int)) < 2 {
                total_len(ts@.subrange(0, k as int))
            } else {
                2
            },
        decreases ts@.len() - k,
    {
        assert(ts@.subrange(0, k + 1).drop_last() =~= ts@.subrange(0, k as int));
        let l = ts[k].text.as_str().unicode_len();
        total = if l >= 2 || total + l >= 2 {
            2
        } else {
            total + l
        };
        k = k + 1;
    }
    assert(ts@.subrange(0, ts@.len() as int) =~= ts@);
    total == 1
}

/// Adds the agama `Iw` before a sarvadhatuka that starts with a consonant, after the last anga,
/// as `iit_rule` says (7.3.93 - 7.3.98), and runs the it-samjna rules on it. Returns `None`
/// where there is no anga or no pratyaya after it, or where the it-samjna rules cannot run to
/// the end.
pub fn iit_agama(p: &mut Prakriya) -> (r: Option<()>)
    requires
        old(p).terms_seq().len() > 0,
    ensures
        ({
            let ts = old(p).terms_seq();
            let ia = prev_anga(ts, ts.len() - 1);
            let ns = next_nonempty(ts, ia + 1);
            if ia == -1 || ns == -1 {
                r is None && *final(p) == *old(p)
            } else {
                let rule = iit_rule(*old(p), ia, ns).0;
                &&& final(p).decisions() == iit_decisions(*old(p), ia, ns)
                &&& final(p).tag_set() == old(p).tag_set()
                &&& final(p).cfg() == old(p).cfg()
                &&& old(p).steps().len() <= final(p).steps().len()
                &&& final(p).steps().subrange(0, old(p).steps().len() as int) == old(p).steps()
                &&& match rule {
                    None => r is Some && final(p).terms_seq() == ts,
                    Some(rule) => {
                        &&& final(p).terms_seq() == ts.insert(ns, final(p).terms_seq()[ns])
                        &&& crate::operators::is_agama_from(final(p).terms_seq()[ns], "Iw"@)
                        &&& (r is Some <==> it_samjna_outcome("Iw"@, "Iw"@, set![T::Agama]).2)
                        &&& (old(p).cfg().log_steps ==> old(p).steps().len() < final(p).steps().len()
                            && final(p).steps()[old(p).steps().len() as int].rule@ == rule)
                    },
                }
            }
        }),
{
    let ghost p0 = *p;
    let ghost ts = p.terms_seq();
    let i_last = p.terms().len() - 1;
    let ra = p.find_prev_where(i_last, is_iit_anga);
    proof {
        lemma_prev_anga(ts, i_last as int, ra);
    }
    let i_anga = match ra {
        Some(i) => i,
        None => return None,
    };
    let rn = p.find_next_where(i_anga, has_text);
    let i_start = match rn {
        Some(n) => n,
        None => {
            proof {
                crate::term::lemma_next_nonempty_none(ts, i_anga + 1);
            }
            return None;
        },
    };
    proof {
        crate::term::lemma_next_nonempty_found(ts, i_anga + 1, i_start as int);
        lemma_it_iit_sounds();
    }
    let hal = sounds::s("hal");
    let tu = ["tu\\", "ru", "zwu\\Y", "Sam", "ama~"];
    assert(tu@ =~= seq!["tu\\", "ru", "zwu\\Y", "Sam", "ama~"]);
    let asa = ["asa~", "si~c"];
    assert(asa@ =~= seq!["asa~", "si~c"]);
    let rud = ["rud", "svap", "Svas", "praR", "jakz"];
    assert(rud@ =~= seq!["rud", "svap", "Svas", "praR", "jakz"]);
    let n = match p.view(i_start) {
        Some(x) => x,
        None => return None,
    };
    let anga = &p.terms()[i_anga];
    let aprkta = is_aprkta(n.slice());
    let hal_sarva = hal.contains_opt(n.adi()) && n.has_tag(T::Sarvadhatuka);
    let piti = n.has_tag(T::pit);
    let is_bru = anga.has_text("brU");
    let is_yan = anga.has_u("yaN");
    let is_tu = anga.has_u_in(&tu);
    let is_as = anga.has_u_in(&asa);
    let is_rud = anga.has_u_in(&rud);
    let rule: Option<Rule> = if !hal_sarva {
        None
    } else if is_bru && piti {
        Some("7.3.93")
    } else if is_yan && piti {
        maybe_rule(p, "7.3.94")
    } else if is_tu {
        maybe_rule(p, "7.3.95")
    } else if aprkta && is_as {
        Some("7.3.96")
    } else if aprkta && is_rud {
        Some("7.3.98")
    } else {
        None
    };
    let ghost p1 = *p;
    proof {
        assert(p1.steps().subrange(0, p0.steps().len() as int) =~= p0.steps());
    }
    if let Some(rule) = rule {
        crate::operators::insert_agama_before(p, i_start, "Iw");
        let ghost p2 = *p;
        p.step(rule);
        let ghost p3 = *p;
        proof {
            assert(crate::it_samjna::has_upadesha_at(p3, i_start as int));
        }
        let r = crate::it_samjna::run(p, i_start);
        proof {
            assert(p.terms_seq() =~= ts.insert(i_start as int, p.terms_seq()[i_start as int]));
            assert(p.steps().subrange(0, p0.steps().len() as int) =~= p0.steps());
            if p0.cfg().log_steps {
                assert(p.steps()[p0.steps().len() as int] == p.steps().subrange(
                    0,
                    p3.steps().len() as int,
                )[p0.steps().len() as int]);
            }
        }
        match r {
            Ok(_) => Some(()),
            Err(_) => None,
        }
    } else {
        Some(())
    }
}

proof fn lemma_it_iit_sounds()
    ensures
        crate::sounds::valid_sound_list("hal"@),
{
    reveal_strlit("hal");
    crate::sounds::lemma_one_word("hal"@);
    reveal_with_fuel(crate::sounds::sutra_with, 15);
    assert(crate::sounds::sutra_with('h', 0) < 14);
}


/// Whether `b` is `a` after the rule `rule` did what `kind` says to the term at `i`: 0 nothing,
/// 1 the num-agama after its last vowel, 2 only its step.
pub open spec fn num_applied(a: Prakriya, b: Prakriya, i: int, kind: int, rule: Seq<char>) -> bool {
    if kind == 1 {
        &&& crate::operators::retexted(
            a.terms_seq(),
            b.terms_seq(),
            i,
            insert_after_last_vowel(a.terms_seq()[i].text@, "n"@),
        )
        &&& b.tag_set() == a.tag_set()
        &&& b.cfg() == a.cfg()
        &&& b.decisions() == a.decisions()
        &&& crate::it_agama::step_for(a, b, rule)
    } else if kind == 2 {
        &&& b.terms_seq() == a.terms_seq()
        &&& Prakriya::rewrote(a, b)
        &&& (a.cfg().log_steps ==> a.steps().len() < b.steps().len() && b.steps()[a.steps().len() as int].rule@ == rule)
    } else {
        b == a
    }
}

fn apply_num(p: &mut Prakriya, i: usize, kind: u8, rule: Rule)
    requires
        i < old(p).terms_seq().len(),
    ensures
        num_applied(*old(p), *final(p), i as int, kind as int, rule@),
{
    let ghost p0 = *p;
    if kind == 1 {
        crate::operators::term_mit(p, rule, i, "n");
    } else if kind == 2 {
        p.step(rule);
        proof {
            crate::prakriya::lemma_rewrote_refl(p0);
            assert(p.steps().subrange(0, p0.steps().len() as int) =~= p0.steps());
        }
    }
}

/// What 7.1.59 (Se mucAdInAm) and 7.1.60 (masjinaSor Jali) do to the dhatu at `i`, as
/// `num_applied` reads it: the dhatus of `muc_adi` before `Sa`, those of `trmph_adi` before `Sa`
/// (7.1.59.v1), and `masj` and `naS` before a sound of `Jal` take num.
pub open spec fn num_59(ts: Seq<Term>, i: int, muc_adi: Seq<&str>, trmph_adi: Seq<&str>) -> (int, Seq<char>) {
    let anga = ts[i];
    let sa = crate::it_agama::vterms(ts, i + 1)[0].u_is("Sa"@);
    if crate::sanadi::u_in(anga, muc_adi) && sa {
        (1, "7.1.59"@)
    } else if crate::sanadi::u_in(anga, trmph_adi) && sa {
        (1, "7.1.59.v1"@)
    } else if crate::term::seq_has_str(seq!["masj", "naS"], anga.text@) && crate::it_agama::in_s(
        crate::it_agama::vadi(ts, i + 1),
        "Jal"@,
    ) {
        (1, "7.1.60"@)
    } else {
        (0, Seq::empty())
    }
}

/// What 7.1.61 - 7.1.64 do to the dhatu at `i` before a vowel: `raD` and `jaB` take num (7.1.61),
/// but not `raD` before the it-agama outside liT (7.1.62); `raB` (7.1.63) and `laB` (7.1.64)
/// take it outside `Sap` and liT.
pub open spec fn num_61(ts: Seq<Term>, i: int) -> (int, Seq<char>) {
    let anga = ts[i];
    let n = crate::it_agama::vterms(ts, i + 1);
    let liti = crate::it_agama::vlakshana(ts, i + 1, "li~w"@);
    if !crate::it_agama::in_s(crate::it_agama::vadi(ts, i + 1), "ac"@) {
        (0, Seq::empty())
    } else if crate::sanadi::u_in(anga, seq!["ra\\Da~", "jaBI~\\"]) {
        if anga.u_is("ra\\Da~"@) && n[0].u_is("iw"@) && n[0].tagged(T::Agama) && !liti {
            (2, "7.1.62"@)
        } else {
            (1, "7.1.61"@)
        }
    } else if anga.u_is("ra\\Ba~\\"@) && !n[0].u_is("Sap"@) && !liti {
        (1, "7.1.63"@)
    } else if anga.u_is("qula\\Ba~\\z"@) && !n[0].u_is("Sap"@) && !liti {
        (1, "7.1.64"@)
    } else {
        (0, Seq::empty())
    }
}

/// What 7.1.70 - 7.1.73 do to the anga at `i` before a sarvanamasthana: an ugit that is not a
/// dhatu takes num (7.1.70); so does a neuter before a sound of `Jal` or a vowel (7.1.72), and
/// one that ends in `ik` before a vowel of a vibhakti (7.1.73).
pub open spec fn num_70(ts: Seq<Term>, i: int) -> (int, Seq<char>) {
    let adi = crate::it_agama::vadi(ts, i + 1);
    if !crate::it_agama::vtagged(ts, i + 1, T::Sarvanamasthana) {
        (0, Seq::empty())
    } else if (crate::it_agama::vtagged(ts, i, T::udit) || crate::it_agama::vtagged(ts, i, T::fdit))
        && !crate::it_agama::vtagged(ts, i, T::Dhatu) {
        (1, "7.1.70"@)
    } else if crate::it_agama::vtagged(ts, i, T::Napumsaka) && (crate::it_agama::in_s(adi, "Jal"@)
        || crate::it_agama::in_s(adi, "ac"@)) {
        (1, "7.1.72"@)
    } else if crate::it_agama::in_s(crate::term::last_sound(crate::it_agama::vterms(ts, i)), "ik"@)
        && crate::it_agama::in_s(adi, "ac"@) && crate::it_agama::vtagged(ts, i + 1, T::Vibhakti) {
        (1, "7.1.73"@)
    } else {
        (0, Seq::empty())
    }
}

/// What 7.1.52 - 7.1.55 do before `Am`, a sup, after the anga before it: 1 with the rule and
/// the agama that comes before `Am` (`su~w` after a sarvanama, `nu~w` after a short vowel, a
/// zaw or `catur`), 2 where `tri` becomes `traya`, 0 for nothing.
pub open spec fn am_agama(ts: Seq<Term>) -> (int, Seq<char>, Seq<char>) {
    let last = ts.last();
    if !(ts.len() >= 2 && last.text@ == "Am"@ && last.tagged(T::Sup)) {
        (0, Seq::empty(), Seq::empty())
    } else {
        let anga = ts[ts.len() - 2];
        if anga.tagged(T::Sarvanama) {
            (1, "7.1.52"@, "su~w"@)
        } else if anga.text@ == "tri"@ {
            (2, "7.1.53"@, "traya"@)
        } else if !crate::filters::spec_is_dirgha(anga) {
            (1, "7.1.54"@, "nu~w"@)
        } else if anga.tagged(T::Sat) || anga.text@ == "catur"@ {
            (1, "7.1.55"@, "nu~w"@)
        } else {
            (0, Seq::empty(), Seq::empty())
        }
    }
}

/// Whether the it-samjna rules run to the end on the agama of `am_agama`, where there is one.
pub open spec fn am_ok(ts: Seq<Term>) -> bool {
    let c = am_agama(ts);
    c.0 != 1 || it_samjna_outcome(c.2, c.2, set![T::Agama]).2
}

/// Whether `b` is `a` after `am_agama`.
pub open spec fn am_stage(a: Prakriya, b: Prakriya) -> bool {
    let ts = a.terms_seq();
    let c = am_agama(ts);
    let k = ts.len() - 1;
    if c.0 == 1 {
        &&& Prakriya::rewrote(a, b)
        &&& b.terms_seq() == ts.insert(k, b.terms_seq()[k])
        &&& crate::operators::is_agama_from(b.terms_seq()[k], c.2)
        &&& (a.cfg().log_steps ==> a.steps().len() < b.steps().len() && b.steps()[a.steps().len() as int].rule@ == c.1)
    } else if c.0 == 2 {
        term_rule_applied(a, b, "7.1.53", ts.len() - 2, "traya"@)
    } else {
        b == a
    }
}

fn add_am_agama(p: &mut Prakriya) -> (r: bool)
    ensures
        am_stage(*old(p), *final(p)),
        r == am_ok(old(p).terms_seq()),
{
    let ghost p0 = *p;
    let ghost ts = p.terms_seq();
    let n = p.terms().len();
    if n < 2 {
        return true;
    }
    let last = &p.terms()[n - 1];
    assert(*last == ts.last());
    if !(last.has_text("Am") && last.has_tag(T::Sup)) {
        return true;
    }
    let i_last = n - 1;
    let anga = &p.terms()[n - 2];
    let (rule, sub): (Rule, &str) = if anga.has_tag(T::Sarvanama) {
        ("7.1.52", "su~w")
    } else if anga.has_text("tri") {
        crate::operators::term_text(p, "7.1.53", n - 2, "traya");
        return true;
    } else if crate::filters::is_hrasva(anga) {
        ("7.1.54", "nu~w")
    } else if anga.has_tag(T::Sat) || anga.has_text("catur") {
        ("7.1.55", "nu~w")
    } else {
        return true;
    };
    crate::operators::insert_agama_before(p, i_last, sub);
    let ghost p2 = *p;
    p.step(rule);
    let ghost p3 = *p;
    proof {
        assert(crate::it_samjna::has_upadesha_at(p3, i_last as int));
    }
    let r = crate::it_samjna::run(p, i_last);
    proof {
        crate::prakriya::lemma_rewrote_refl(p0);
        assert(p2.steps().subrange(0, p2.steps().len() as int) =~= p2.steps());
        crate::prakriya::lemma_rewrote_trans(p0, p2, p3);
        crate::prakriya::lemma_rewrote_trans(p0, p3, *p);
        assert(p.terms_seq() =~= ts.insert(i_last as int, p.terms_seq()[i_last as int]));
        if p0.cfg().log_steps {
            assert(p.steps()[p0.steps().len() as int] == p.steps().subrange(
                0,
                p3.steps().len() as int,
            )[p0.steps().len() as int]);
        }
    }
    r.is_ok()
}

/// Whether `b` is `a` after `try_add_num_agama`, by way of the states `a1` to `a3`: `am_stage`,
/// then on the last dhatu `num_59`, `num_61` and `num_70` in turn; `ok` is false where there is
/// no dhatu, the it-samjna rules on the agama of `am_stage` cannot run to the end, or no term
/// follows the dhatu.
pub open spec fn num_chain(
    a: Prakriya,
    a1: Prakriya,
    a2: Prakriya,
    a3: Prakriya,
    b: Prakriya,
    muc_adi: Seq<&str>,
    trmph_adi: Seq<&str>,
    ok: bool,
) -> bool {
    let i = crate::vikarana::last_tagged(a.terms_seq(), T::Dhatu);
    if i == -1 {
        !ok && b == a
    } else {
        &&& am_stage(a, a1)
        &&& if !am_ok(a.terms_seq()) || i + 1 >= a1.terms_seq().len() {
            !ok && b == a1
        } else {
            let c1 = num_59(a1.terms_seq(), i, muc_adi, trmph_adi);
            &&& num_applied(a1, a2, i, c1.0, c1.1)
            &&& num_applied(a2, a3, i, num_61(a2.terms_seq(), i).0, num_61(a2.terms_seq(), i).1)
            &&& num_applied(a3, b, i, num_70(a3.terms_seq(), i).0, num_70(a3.terms_seq(), i).1)
            &&& ok
        }
    }
}

/// Runs the rules that add the num-agama to the anga (7.1.52 - 7.1.73), as `num_chain` says;
/// `muc_adi` and `trmph_adi` are the dhatus of 7.1.59 and its varttika. 7.1.58 (idito num
/// DAtoH) is in `dhatu_karya`.
pub fn try_add_num_agama(p: &mut Prakriya, muc_adi: &[&str], trmph_adi: &[&str]) -> (r: Option<()>)
    ensures
        exists|a1: Prakriya, a2: Prakriya, a3: Prakriya|
            #[trigger] num_chain(*old(p), a1, a2, a3, *final(p), muc_adi@, trmph_adi@, r is Some),
{
    let ghost p0 = *p;
    let ghost ts = p.terms_seq();
    proof {
        lemma_num_sounds();
    }
    let rd = p.find_last(T::Dhatu);
    proof {
        crate::vikarana::lemma_find_last(ts, T::Dhatu, rd);
    }
    let i = match rd {
        Some(i) => i,
        None => {
            assert(num_chain(p0, p0, p0, p0, *p, muc_adi@, trmph_adi@, false));
            return None;
        },
    };
    let ok = add_am_agama(p);
    let ghost a1 = *p;
    let n = p.terms().len();
    if !ok || i + 1 >= n {
        let r: Option<()> = None;
        assert(num_chain(p0, a1, a1, a1, *p, muc_adi@, trmph_adi@, r is Some));
        return r;
    }
    let jhal = sounds::s("Jal");
    let ac = sounds::s("ac");
    let ik = sounds::s("ik");
    let masj = ["masj", "naS"];
    assert(masj@ =~= seq!["masj", "naS"]);
    let radh = ["ra\\Da~", "jaBI~\\"];
    assert(radh@ =~= seq!["ra\\Da~", "jaBI~\\"]);
    // 7.1.59 - 7.1.60
    let (k1, r1): (u8, Rule) = match p.view(i + 1) {
        Some(nv) => {
            let anga = &p.terms()[i];
            let sa = nv.has_u("Sa");
            if anga.has_u_in(muc_adi) && sa {
                (1, "7.1.59")
            } else if anga.has_u_in(trmph_adi) && sa {
                (1, "7.1.59.v1")
            } else if anga.has_text_in(&masj) && jhal.contains_opt(nv.adi()) {
                (1, "7.1.60")
            } else {
                (0, "")
            }
        },
        None => (0, ""),
    };
    assert(k1 as int == num_59(a1.terms_seq(), i as int, muc_adi@, trmph_adi@).0);
    assert(k1 == 0 || r1@ == num_59(a1.terms_seq(), i as int, muc_adi@, trmph_adi@).1);
    apply_num(p, i, k1, r1);
    let ghost a2 = *p;
    // 7.1.61 - 7.1.64
    let (k2, r2): (u8, Rule) = match p.view(i + 1) {
        Some(nv) => {
            let anga = &p.terms()[i];
            let liti = nv.has_lakshana("li~w");
            let first_it = match nv.first() {
                Some(t) => crate::filters::is_it_agama(t),
                None => false,
            };
            if !ac.contains_opt(nv.adi()) {
                (0, "")
            } else if anga.has_u_in(&radh) {
                if anga.has_u("ra\\Da~") && first_it && !liti {
                    (2, "7.1.62")
                } else {
                    (1, "7.1.61")
                }
            } else if anga.has_u("ra\\Ba~\\") && !nv.has_u("Sap") && !liti {
                (1, "7.1.63")
            } else if anga.has_u("qula\\Ba~\\z") && !nv.has_u("Sap") && !liti {
                // TODO: 7.1.65 - 7.1.69
                (1, "7.1.64")
            } else {
                (0, "")
            }
        },
        None => (0, ""),
    };
    assert(k2 as int == num_61(a2.terms_seq(), i as int).0);
    assert(k2 == 0 || r2@ == num_61(a2.terms_seq(), i as int).1);
    apply_num(p, i, k2, r2);
    let ghost a3 = *p;
    // 7.1.70 - 7.1.73
    let (k3, r3): (u8, Rule) = match (p.view(i + 1), p.view(i)) {
        (Some(nv), Some(av)) => {
            let adi = nv.adi();
            if !nv.has_tag(T::Sarvanamasthana) {
                (0, "")
            } else if (av.has_tag(T::udit) || av.has_tag(T::fdit)) && !av.has_tag(T::Dhatu) {
                (1, "7.1.70")
            } else if av.has_tag(T::Napumsaka) && (jhal.contains_opt(adi) || ac.contains_opt(adi)) {
                (1, "7.1.72")
            } else if ik.contains_opt(av.antya()) && ac.contains_opt(adi) && nv.has_tag(T::Vibhakti) {
                (1, "7.1.73")
            } else {
                (0, "")
            }
        },
        _ => (0, ""),
    };
    assert(k3 as int == num_70(a3.terms_seq(), i as int).0);
    assert(k3 == 0 || r3@ == num_70(a3.terms_seq(), i as int).1);
    apply_num(p, i, k3, r3);
    let r: Option<()> = Some(());
    assert(num_chain(p0, a1, a2, a3, *p, muc_adi@, trmph_adi@, r is Some));
    r
}

proof fn lemma_num_sounds()
    ensures
        crate::sounds::valid_sound_list("Jal"@),
        crate::sounds::valid_sound_list("ac"@),
        crate::sounds::valid_sound_list("ik"@),
{
    crate::ac_sandhi::lemma_sound_lists();
    reveal_strlit("Jal");
    crate::sounds::lemma_one_word("Jal"@);
    reveal_with_fuel(crate::sounds::sutra_with, 15);
    assert(crate::sounds::sutra_with('J', 0) < 14);
}

} // verus!
