//! Rules for ardhadhatuka suffixes (2.4 and 6.1).
use crate::constants::{La, Tag as T};
use crate::operators::{took_upadesha, upadesha_taken};
use crate::prakriya::{allows, Prakriya, Rule};
use crate::sounds::spec_s;
use crate::term::{strings_have, Term, TermView};
use vstd::prelude::*;

verus! {

/// Whether some term of the view `n` has the former upadesha `x`.
pub open spec fn view_has_lakshana(n: TermView, x: Seq<char>) -> bool {
    exists|k: int|
        0 <= k < n.terms_of().len() && strings_have((#[trigger] n.terms_of()[k]).lakshana@, x)
}

/// Returns whether the suffix view `n` causes guna of a preceding dhatu: not for a
/// parasmaipada ashir-liN, which takes the kit yAsuT; not for an apit sarvadhatuka, which is
/// Nit; and not for an apit liT, which is kit.
pub fn will_cause_guna(n: TermView) -> (r: bool)
    ensures
        r == !((view_has_lakshana(n, "li~N"@) && n.view_tagged(T::Ardhadhatuka) && n.view_tagged(
            T::Parasmaipada,
        )) || (n.view_tagged(T::Sarvadhatuka) && !n.view_tagged(T::pit)) || (view_has_lakshana(
            n,
            "li~w"@,
        ) && !n.view_tagged(T::pit))),
{
    let is_apit = !n.has_tag(T::pit);
    let ashir_lin = n.has_lakshana("li~N") && n.all(&[T::Ardhadhatuka, T::Parasmaipada]);
    let apit_sarvadhatuka = n.has_tag(T::Sarvadhatuka) && is_apit;
    let apit_lit = n.has_lakshana("li~w") && is_apit;
    // ArdhadhAtuka and other sArvadhAtuka suffixes will cause guna.
    !(ashir_lin || apit_sarvadhatuka || apit_lit)
}

/// The index of the first term of `ts` that has `tag`; -1 where there is none.
pub open spec fn first_tagged(ts: Seq<Term>, tag: T) -> int
    decreases ts.len(),
{
    if ts.len() == 0 {
        -1
    } else if ts[0].tagged(tag) {
        0
    } else {
        let r = first_tagged(ts.skip(1), tag);
        if r < 0 {
            -1
        } else {
            r + 1
        }
    }
}

/// `find_first` finds the index of `first_tagged`.
pub proof fn lemma_find_first(ts: Seq<Term>, tag: T, r: Option<usize>)
    requires
        r matches Some(i) ==> i < ts.len() && ts[i as int].tagged(tag) && forall|j: int|
            0 <= j < i ==> !(#[trigger] ts[j]).tagged(tag),
        r is None ==> forall|j: int| 0 <= j < ts.len() ==> !(#[trigger] ts[j]).tagged(tag),
    ensures
        r matches Some(i) ==> first_tagged(ts, tag) == i,
        r is None ==> first_tagged(ts, tag) == -1,
    decreases ts.len(),
{
    if ts.len() > 0 && !ts[0].tagged(tag) {
        let rest = ts.skip(1);
        let r2: Option<usize> = match r {
            Some(i) => Some((i - 1) as usize),
            None => None,
        };
        if let Some(i) = r {
            assert(i != 0);
            assert forall|j: int| 0 <= j < i - 1 implies !(#[trigger] rest[j]).tagged(tag) by {
                assert(rest[j] == ts[j + 1]);
            }
            assert(rest[i - 1] == ts[i as int]);
        } else {
            assert forall|j: int| 0 <= j < rest.len() implies !(#[trigger] rest[j]).tagged(tag) by {
                assert(rest[j] == ts[j + 1]);
            }
        }
        lemma_find_first(rest, tag, r2);
    } else if ts.len() > 0 {
        if let Some(i) = r {
            if i > 0 {
                assert(!ts[0].tagged(tag));
            }
        } else {
            assert(!ts[0].tagged(tag));
        }
    }
}

/// Whether the term after `i` has the former upadesha `x`.
pub open spec fn next_has_lakshana(ts: Seq<Term>, i: int, x: Seq<char>) -> bool {
    i + 1 < ts.len() && strings_have(ts[i + 1].lakshana@, x)
}

/// Whether the term after `i` has the upadesha `x`.
pub open spec fn next_has_u(ts: Seq<Term>, i: int, x: Seq<char>) -> bool {
    i + 1 < ts.len() && ts[i + 1].u_is(x)
}

/// The upadesha that replaces the dhatu at `i` before an ardhadhatuka suffix (2.4.36 -
/// 2.4.57), where one does, with the rule choices of `p` deciding the optional rules.
pub open spec fn adesha_for_dhatu(p: Prakriya, i: int, la: La) -> Option<Seq<char>> {
    let ts = p.terms_seq();
    let d = ts[i];
    let has_n = i + 1 < ts.len();
    let nt = ts[i + 1];
    let ch = p.cfg().rule_choices@;
    if d.text@ == "ad"@ {
        if next_has_lakshana(ts, i, "lu~N"@) || next_has_lakshana(ts, i, "san"@) {
            Some("Gasx~"@)
        } else if next_has_u(ts, i, "GaY"@) || next_has_u(ts, i, "ap"@) {
            Some("Gasx~"@)
        } else if next_has_lakshana(ts, i, "li~w"@) {
            if allows(ch, "2.4.40"@) {
                Some("Gasx~"@)
            } else {
                None
            }
        } else if next_has_u(ts, i, "lyap"@) || (has_n && nt.text@.len() > 0 && nt.text@[0] == 't'
            && nt.tagged(T::kit)) {
            Some("jagDi~"@)
        } else {
            None
        }
    } else if d.u_is("ve\\Y"@) && next_has_lakshana(ts, i, "li~w"@) {
        if allows(ch, "2.4.41"@) {
            Some("vayi~"@)
        } else {
            None
        }
    } else if d.text@ == "han"@ {
        if next_has_lakshana(ts, i, "li~N"@) {
            Some("vaDa"@)
        } else if next_has_lakshana(ts, i, "lu~N"@) {
            if has_n && nt.tagged(T::Atmanepada) && !allows(ch, "2.4.44"@) {
                None
            } else {
                Some("vaDa"@)
            }
        } else {
            None
        }
    } else if d.u_is("i\\R"@) || d.u_is("i\\k"@) {
        if strings_have(d.lakshana@, "lu~N"@) {
            Some("gA"@)
        } else if next_has_u(ts, i, "Ric"@) {
            if allows(ch, "2.4.46"@) {
                Some("gami~"@)
            } else {
                None
            }
        } else if next_has_u(ts, i, "san"@) {
            if allows(ch, "2.4.47"@) {
                Some("gami~"@)
            } else {
                None
            }
        } else {
            None
        }
    } else if d.u_is("i\\N"@) {
        if next_has_u(ts, i, "san"@) {
            Some("gami~"@)
        } else if next_has_lakshana(ts, i, "li~w"@) {
            Some("gAN"@)
        } else if next_has_lakshana(ts, i, "lu~N"@) || next_has_lakshana(ts, i, "lf~N"@) {
            if allows(ch, "2.4.50"@) {
                Some("gAN"@)
            } else {
                None
            }
        } else {
            None
        }
    } else if d.u_is("asa~"@) {
        Some("BU"@)
    } else if d.u_is("brUY"@) {
        Some("va\\ci~"@)
    } else if d.u_is("aja~"@) && has_n && !(nt.u_is("GaY"@) || nt.u_is("ap"@)) {
        let kept_for_lyuw = nt.u_is("lyuw"@) && allows(ch, "2.4.57"@);
        let will_yasut = la == La::AshirLin && p.tag_set().contains(T::Parasmaipada);
        let last = ts.last();
        let is_lit_ajadi = la == La::Lit && last.text@.len() > 0 && spec_s("ac"@).contains(
            last.text@[0],
        );
        let valadi = nt.text@.len() > 0 && spec_s("val"@).contains(nt.text@[0]) && !(will_yasut
            || is_lit_ajadi);
        if !kept_for_lyuw && !(valadi && allows(ch, "2.4.56.v2"@)) {
            Some("vI\\"@)
        } else {
            None
        }
    } else {
        None
    }
}

/// What an optional rule `code` records where the rule choices are `ch`: its step and the
/// replacement where they allow it, and the decision either way.
pub open spec fn optional_trace(ch: Seq<crate::prakriya::RuleChoice>, code: Seq<char>) -> (
    Seq<Seq<char>>,
    Option<Seq<char>>,
    Seq<(bool, Seq<char>)>,
) {
    (
        seq![],
        if allows(ch, code) {
            Some(code)
        } else {
            None
        },
        seq![(allows(ch, code), code)],
    )
}

/// What the rule `code` records where it replaces the dhatu: its step.
pub open spec fn fixed_trace(code: Seq<char>) -> (Seq<Seq<char>>, Option<Seq<char>>, Seq<(bool, Seq<char>)>) {
    (seq![], Some(code), seq![])
}

/// What the rules of `adesha_for_dhatu` record for the dhatu at `i`: the steps noted on the
/// terms as they are, the rule whose step ends the replacement where one is made, and the
/// decisions on optional rules, in order.
pub open spec fn dhatu_adesha_trace(p: Prakriya, i: int, la: La) -> (
    Seq<Seq<char>>,
    Option<Seq<char>>,
    Seq<(bool, Seq<char>)>,
) {
    let ts = p.terms_seq();
    let d = ts[i];
    let has_n = i + 1 < ts.len();
    let nt = ts[i + 1];
    let ch = p.cfg().rule_choices@;
    let nothing = (Seq::<Seq<char>>::empty(), None::<Seq<char>>, Seq::<(bool, Seq<char>)>::empty());
    if d.text@ == "ad"@ {
        if next_has_lakshana(ts, i, "lu~N"@) || next_has_lakshana(ts, i, "san"@) {
            fixed_trace("2.4.37"@)
        } else if next_has_u(ts, i, "GaY"@) || next_has_u(ts, i, "ap"@) {
            fixed_trace("2.4.38"@)
        } else if next_has_lakshana(ts, i, "li~w"@) {
            optional_trace(ch, "2.4.40"@)
        } else if next_has_u(ts, i, "lyap"@) || (has_n && nt.text@.len() > 0 && nt.text@[0] == 't'
            && nt.tagged(T::kit)) {
            fixed_trace("2.4.36"@)
        } else {
            nothing
        }
    } else if d.u_is("ve\\Y"@) && next_has_lakshana(ts, i, "li~w"@) {
        optional_trace(ch, "2.4.41"@)
    } else if d.text@ == "han"@ {
        if next_has_lakshana(ts, i, "li~N"@) {
            fixed_trace("2.4.42"@)
        } else if next_has_lakshana(ts, i, "lu~N"@) {
            if has_n && nt.tagged(T::Atmanepada) {
                optional_trace(ch, "2.4.44"@)
            } else {
                fixed_trace("2.4.43"@)
            }
        } else {
            nothing
        }
    } else if d.u_is("i\\R"@) || d.u_is("i\\k"@) {
        let notes: Seq<Seq<char>> = if d.u_is("i\\k"@) {
            seq!["2.4.45.v1"@]
        } else {
            seq![]
        };
        let rest = if strings_have(d.lakshana@, "lu~N"@) {
            fixed_trace("2.4.45"@)
        } else if next_has_u(ts, i, "Ric"@) {
            optional_trace(ch, "2.4.46"@)
        } else if next_has_u(ts, i, "san"@) {
            optional_trace(ch, "2.4.47"@)
        } else {
            nothing
        };
        (notes, rest.1, rest.2)
    } else if d.u_is("i\\N"@) {
        if next_has_u(ts, i, "san"@) {
            fixed_trace("2.4.48"@)
        } else if next_has_lakshana(ts, i, "li~w"@) {
            fixed_trace("2.4.49"@)
        } else if next_has_lakshana(ts, i, "lu~N"@) || next_has_lakshana(ts, i, "lf~N"@) {
            optional_trace(ch, "2.4.50"@)
        } else {
            nothing
        }
    } else if d.u_is("asa~"@) {
        fixed_trace("2.4.52"@)
    } else if d.u_is("brUY"@) {
        fixed_trace("2.4.53"@)
    } else if d.u_is("aja~"@) && has_n && !(nt.u_is("GaY"@) || nt.u_is("ap"@)) {
        let lyuw = nt.u_is("lyuw"@);
        let kept = allows(ch, "2.4.57"@);
        let will_yasut = la == La::AshirLin && p.tag_set().contains(T::Parasmaipada);
        let last = ts.last();
        let is_lit_ajadi = la == La::Lit && last.text@.len() > 0 && spec_s("ac"@).contains(
            last.text@[0],
        );
        let valadi = nt.text@.len() > 0 && spec_s("val"@).contains(nt.text@[0]) && !(will_yasut
            || is_lit_ajadi);
        let v2 = allows(ch, "2.4.56.v2"@);
        let d1: Seq<(bool, Seq<char>)> = if lyuw {
            seq![(kept, "2.4.57"@)]
        } else {
            seq![]
        };
        let d2: Seq<(bool, Seq<char>)> = if valadi {
            seq![(v2, "2.4.56.v2"@)]
        } else {
            seq![]
        };
        let notes: Seq<Seq<char>> = if valadi && v2 {
            seq!["2.4.56.v2"@]
        } else {
            seq![]
        };
        (
            notes,
            if !(lyuw && kept) && !(valadi && v2) {
                Some("2.4.56"@)
            } else {
                None
            },
            d1 + d2,
        )
    } else {
        nothing
    }
}

/// What `dhatu_adesha_before_vikarana` records on `p`: nothing for a sarvadhatuka lakara or
/// without a dhatu, else what the rules record for the first dhatu (`dhatu_adesha_trace`).
pub open spec fn adesha_trace(p: Prakriya, la: La) -> (
    Seq<Seq<char>>,
    Option<Seq<char>>,
    Seq<(bool, Seq<char>)>,
) {
    let i = first_tagged(p.terms_seq(), T::Dhatu);
    if la.spec_is_sarvadhatuka() || i < 0 {
        (seq![], None, seq![])
    } else {
        dhatu_adesha_trace(p, i, la)
    }
}

/// Nothing recorded is a trace of no rule.
pub proof fn lemma_traced_refl(a: Prakriya)
    ensures
        traced(a, a, seq![], None, seq![]),
{
    assert(a.decisions().subrange(0, a.decisions().len() as int) =~= a.decisions());
    assert(a.steps().subrange(0, a.steps().len() as int) =~= a.steps());
}

/// The upadesha that replaces the first dhatu of `p` before the vikarana, if one does: none
/// for a sarvadhatuka lakara.
pub open spec fn vikarana_adesha(p: Prakriya, la: La) -> Option<Seq<char>> {
    let i = first_tagged(p.terms_seq(), T::Dhatu);
    if la.spec_is_sarvadhatuka() || i < 0 {
        None
    } else {
        adesha_for_dhatu(p, i, la)
    }
}

/// The rule and the outcome of a decision: whether the optional rule was taken, and its code.
pub open spec fn choice_view(c: crate::prakriya::RuleChoice) -> (bool, Seq<char>) {
    match c {
        crate::prakriya::RuleChoice::Accept(r) => (true, r@),
        crate::prakriya::RuleChoice::Decline(r) => (false, r@),
    }
}

/// Whether `b` is `a` after the steps `notes` on the terms of `a`, then, where `rule` is given,
/// steps that end with one for `rule` on the terms of `b`, with the decisions `ds` recorded;
/// where `a` records no steps, the steps are kept.
pub open spec fn traced(
    a: Prakriya,
    b: Prakriya,
    notes: Seq<Seq<char>>,
    rule: Option<Seq<char>>,
    ds: Seq<(bool, Seq<char>)>,
) -> bool {
    let n = a.steps().len();
    let m = a.decisions().len();
    &&& b.decisions().len() == m + ds.len()
    &&& b.decisions().subrange(0, m as int) == a.decisions()
    &&& forall|k: int| 0 <= k < ds.len() ==> choice_view(#[trigger] b.decisions()[m + k]) == ds[k]
    &&& if a.cfg().log_steps {
        &&& b.steps().len() >= n + notes.len()
        &&& b.steps().subrange(0, n as int) == a.steps()
        &&& forall|k: int|
            0 <= k < notes.len() ==> (#[trigger] b.steps()[n + k]).rule@ == notes[k]
                && b.steps()[n + k].state@ == crate::prakriya::joined_state(a.terms_seq())
        &&& match rule {
            Some(r) => b.steps().len() > n + notes.len() && b.steps().last().rule@ == r
                && b.steps().last().state@ == crate::prakriya::joined_state(b.terms_seq()),
            None => b.steps().len() == n + notes.len(),
        }
    } else {
        b.steps() == a.steps()
    }
}

/// A trace with no change to the terms, then another, is one trace.
pub proof fn lemma_traced_seq(
    a: Prakriya,
    b: Prakriya,
    c: Prakriya,
    notes1: Seq<Seq<char>>,
    ds1: Seq<(bool, Seq<char>)>,
    notes2: Seq<Seq<char>>,
    rule: Option<Seq<char>>,
    ds2: Seq<(bool, Seq<char>)>,
)
    requires
        traced(a, b, notes1, None, ds1),
        traced(b, c, notes2, rule, ds2),
        a.terms_seq() == b.terms_seq(),
        a.cfg() == b.cfg(),
    ensures
        traced(a, c, notes1 + notes2, rule, ds1 + ds2),
{
    let m = a.decisions().len() as int;
    let mb = b.decisions().len() as int;
    assert(c.decisions().subrange(0, m) =~= a.decisions()) by {
        assert forall|k: int| 0 <= k < m implies c.decisions().subrange(0, m)[k] == a.decisions()[k] by {
            assert(c.decisions().subrange(0, mb)[k] == b.decisions()[k]);
            assert(b.decisions().subrange(0, m)[k] == a.decisions()[k]);
        }
    }
    let ds = ds1 + ds2;
    assert forall|k: int| 0 <= k < ds.len() implies choice_view(#[trigger] c.decisions()[m + k]) == ds[k] by {
        if k < ds1.len() {
            assert(c.decisions().subrange(0, mb)[m + k] == b.decisions()[m + k]);
            assert(choice_view(b.decisions()[m + k]) == ds1[k]);
        } else {
            assert(choice_view(c.decisions()[mb + (k - ds1.len())]) == ds2[k - ds1.len()]);
        }
    }
    if a.cfg().log_steps {
        let n = a.steps().len() as int;
        let nb = b.steps().len() as int;
        assert(c.steps().subrange(0, n) =~= a.steps()) by {
            assert forall|k: int| 0 <= k < n implies c.steps().subrange(0, n)[k] == a.steps()[k] by {
                assert(c.steps().subrange(0, nb)[k] == b.steps()[k]);
                assert(b.steps().subrange(0, n)[k] == a.steps()[k]);
            }
        }
        let notes = notes1 + notes2;
        assert forall|k: int| 0 <= k < notes.len() implies (#[trigger] c.steps()[n + k]).rule@ == notes[k]
            && c.steps()[n + k].state@ == crate::prakriya::joined_state(a.terms_seq()) by {
            if k < notes1.len() {
                assert(c.steps().subrange(0, nb)[n + k] == b.steps()[n + k]);
            } else {
                assert(c.steps()[nb + (k - notes1.len())].rule@ == notes2[k - notes1.len()]);
            }
        }
    }
}

/// Applies rule `code` by replacing the term at `i` with the upadesha `sub`.
fn rule_upadesha(p: &mut Prakriya, code: Rule, i: usize, sub: &str)
    requires
        i < old(p).terms_seq().len(),
    ensures
        Prakriya::revised(*old(p), *final(p)),
        final(p).cfg() == old(p).cfg(),
        final(p).tag_set() == old(p).tag_set(),
        upadesha_taken(old(p).terms_seq(), final(p).terms_seq(), i as int, sub@),
        traced(*old(p), *final(p), seq![], Some(code@), seq![]),
{
    let ghost p0 = *p;
    crate::operators::upadesha(p, i, sub);
    let ghost p1 = *p;
    p.step(code);
    proof {
        assert(p.steps().subrange(0, p1.steps().len() as int) =~= p1.steps());
        crate::prakriya::lemma_rewrote_trans(p0, p1, *p);
        crate::prakriya::lemma_rewrote_revised(p0, *p);
        assert(p.decisions().subrange(0, p0.decisions().len() as int) =~= p0.decisions());
        if p0.cfg().log_steps {
            assert(p.steps().subrange(0, p0.steps().len() as int) =~= p0.steps()) by {
                assert forall|k: int| 0 <= k < p0.steps().len() implies p.steps().subrange(0, p0.steps().len() as int)[k] == p0.steps()[k] by {
                    assert(p.steps().subrange(0, p1.steps().len() as int)[k] == p1.steps()[k]);
                    assert(p1.steps().subrange(0, p0.steps().len() as int)[k] == p0.steps()[k]);
                }
            }
        }
    }
}

/// Applies the optional rule `code` by replacing the term at `i` with the upadesha `sub`, where
/// the rule choices allow it, and records the decision either way.
fn optional_upadesha(p: &mut Prakriya, code: Rule, i: usize, sub: &str) -> (r: bool)
    requires
        i < old(p).terms_seq().len(),
    ensures
        r == allows(old(p).cfg().rule_choices@, code@),
        Prakriya::revised(*old(p), *final(p)),
        final(p).cfg() == old(p).cfg(),
        final(p).tag_set() == old(p).tag_set(),
        r ==> upadesha_taken(old(p).terms_seq(), final(p).terms_seq(), i as int, sub@),
        !r ==> final(p).terms_seq() == old(p).terms_seq(),
        traced(
            *old(p),
            *final(p),
            seq![],
            if r {
                Some(code@)
            } else {
                None
            },
            seq![(r, code@)],
        ),
{
    let ghost p0 = *p;
    if p.is_allowed(code) {
        let ghost p1 = *p;
        rule_upadesha(p, code, i, sub);
        proof {
            assert(p1.decisions().subrange(0, p0.decisions().len() as int) =~= p0.decisions());
            assert(p1.steps().subrange(0, p0.steps().len() as int) =~= p0.steps());
            crate::prakriya::lemma_revised_trans(p0, p1, *p);
            assert(p.decisions().subrange(0, p0.decisions().len() as int) =~= p0.decisions());
            assert(p.decisions()[p0.decisions().len() as int] == p1.decisions()[p0.decisions().len() as int]);
        }
        true
    } else {
        p.decline(code);
        proof {
            assert(p.decisions().subrange(0, p0.decisions().len() as int) =~= p0.decisions());
            assert(p.steps().subrange(0, p0.steps().len() as int) =~= p0.steps());
        }
        false
    }
}

fn next_lakshana(p: &Prakriya, i: usize, x: &str) -> (r: bool)
    ensures
        r == next_has_lakshana(p.terms_seq(), i as int, x@),
{
    if p.terms().len() > 0 && i < p.terms().len() - 1 {
        p.terms()[i + 1].has_lakshana(x)
    } else {
        false
    }
}

fn next_u(p: &Prakriya, i: usize, x: &str) -> (r: bool)
    ensures
        r == next_has_u(p.terms_seq(), i as int, x@),
{
    if p.terms().len() > 0 && i < p.terms().len() - 1 {
        p.terms()[i + 1].has_u(x)
    } else {
        false
    }
}

/// Decides the optional rule `code`: whether the rule choices allow it, recording the decision.
fn decide(p: &mut Prakriya, code: Rule) -> (r: bool)
    ensures
        r == allows(old(p).cfg().rule_choices@, code@),
        Prakriya::revised(*old(p), *final(p)),
        final(p).terms_seq() == old(p).terms_seq(),
        final(p).cfg() == old(p).cfg(),
        final(p).tag_set() == old(p).tag_set(),
        traced(*old(p), *final(p), seq![], None, seq![(r, code@)]),
{
    let ghost p0 = *p;
    let r = if p.is_allowed(code) {
        true
    } else {
        p.decline(code);
        false
    };
    proof {
        assert(p.decisions().subrange(0, p0.decisions().len() as int) =~= p0.decisions());
        assert(p.steps().subrange(0, p0.steps().len() as int) =~= p0.steps());
    }
    r
}

/// Records the step `code`.
fn note(p: &mut Prakriya, code: Rule)
    ensures
        Prakriya::revised(*old(p), *final(p)),
        final(p).terms_seq() == old(p).terms_seq(),
        final(p).cfg() == old(p).cfg(),
        final(p).tag_set() == old(p).tag_set(),
        traced(*old(p), *final(p), seq![code@], None, seq![]),
{
    let ghost p0 = *p;
    p.step(code);
    proof {
        assert(p.decisions().subrange(0, p0.decisions().len() as int) =~= p0.decisions());
        assert(p.steps().subrange(0, p0.steps().len() as int) =~= p0.steps());
    }
}

/// Replaces the dhatu at `i` with `sub` by `code`, or by the optional `code` where `optional`.
fn replace_dhatu(p: &mut Prakriya, code: Rule, i: usize, sub: &str, optional: bool)
    requires
        i < old(p).terms_seq().len(),
    ensures
        Prakriya::revised(*old(p), *final(p)),
        final(p).cfg() == old(p).cfg(),
        final(p).tag_set() == old(p).tag_set(),
        (!optional || allows(old(p).cfg().rule_choices@, code@)) ==> upadesha_taken(
            old(p).terms_seq(),
            final(p).terms_seq(),
            i as int,
            sub@,
        ),
        (optional && !allows(old(p).cfg().rule_choices@, code@)) ==> final(p).terms_seq() == old(
            p,
        ).terms_seq(),
        traced(
            *old(p),
            *final(p),
            seq![],
            if !optional || allows(old(p).cfg().rule_choices@, code@) {
                Some(code@)
            } else {
                None
            },
            if optional {
                seq![(allows(old(p).cfg().rule_choices@, code@), code@)]
            } else {
                seq![]
            },
        ),
{
    if optional {
        optional_upadesha(p, code, i, sub);
    } else {
        rule_upadesha(p, code, i, sub);
    }
}

/// Replaces the dhatu based on the ardhadhatuka suffix that follows it (2.4.36 - 2.4.57):
/// `ad` becomes `Gasx~` or `jagDi~`, `ve\Y` `vayi~`, `han` `vaDa`, `i\R` and `i\k` `gA` or
/// `gami~`, `i\N` `gami~` or `gAN`, `asa~` `BU`, `brUY` `va\ci~` and `aja~` `vI\`. These rules
/// run before the vikarana is chosen, since their results decide which vikarana comes. The
/// steps and the decisions on optional rules that it records are those of `adesha_trace`: the
/// last new step names the rule of the branch taken, on the terms it leaves.
pub fn dhatu_adesha_before_vikarana(p: &mut Prakriya, la: La)
    ensures
        Prakriya::revised(*old(p), *final(p)),
        la.spec_is_sarvadhatuka() || first_tagged(old(p).terms_seq(), T::Dhatu) == -1
            ==> *final(p) == *old(p),
        match vikarana_adesha(*old(p), la) {
            None => final(p).terms_seq() == old(p).terms_seq(),
            Some(sub) => upadesha_taken(
                old(p).terms_seq(),
                final(p).terms_seq(),
                first_tagged(old(p).terms_seq(), T::Dhatu),
                sub,
            ),
        },
        ({
            let tr = adesha_trace(*old(p), la);
            traced(*old(p), *final(p), tr.0, tr.1, tr.2)
        }),
{
    let ghost p0 = *p;
    proof {
        crate::prakriya::lemma_rewrote_refl(p0);
        crate::prakriya::lemma_rewrote_revised(p0, p0);
        lemma_traced_refl(p0);
    }
    // Rules are under 2.4.35 "ArdhadhAtuke".
    if la.is_sarvadhatuka() {
        return;
    }
    let ghost ts = p.terms_seq();
    let r = p.find_first(T::Dhatu);
    proof {
        lemma_find_first(ts, T::Dhatu, r);
    }
    let i = match r {
        Some(i) => i,
        None => {
            return;
        },
    };
    let n = p.terms().len();
    let has_n = i + 1 < n;
    let ghost want = adesha_for_dhatu(p0, i as int, la);
    if p.terms()[i].has_text("ad") {
        if next_lakshana(p, i, "lu~N") || next_lakshana(p, i, "san") {
            replace_dhatu(p, "2.4.37", i, "Gasx~", false);
        } else if next_u(p, i, "GaY") || next_u(p, i, "ap") {
            replace_dhatu(p, "2.4.38", i, "Gasx~", false);
        } else if next_lakshana(p, i, "li~w") {
            replace_dhatu(p, "2.4.40", i, "Gasx~", true);
        } else if next_u(p, i, "lyap") || (has_n && p.terms()[i + 1].has_adi('t')
            && p.terms()[i + 1].has_tag(T::kit)) {
            replace_dhatu(p, "2.4.36", i, "jagDi~", false);
        }
        // Skip 2.4.39 (bahulaM chandasi).
    } else if p.terms()[i].has_u("ve\\Y") && next_lakshana(p, i, "li~w") {
        replace_dhatu(p, "2.4.41", i, "vayi~", true);
    } else if p.terms()[i].has_text("han") {
        if next_lakshana(p, i, "li~N") {
            replace_dhatu(p, "2.4.42", i, "vaDa", false);
        } else if next_lakshana(p, i, "lu~N") {
            if has_n && p.terms()[i + 1].has_tag(T::Atmanepada) {
                replace_dhatu(p, "2.4.44", i, "vaDa", true);
            } else {
                replace_dhatu(p, "2.4.43", i, "vaDa", false);
            }
        }
    } else if p.terms()[i].has_u("i\\R") || p.terms()[i].has_u("i\\k") {
        let is_ik = p.terms()[i].has_u("i\\k");
        if is_ik {
            note(p, "2.4.45.v1");
        }
        let ghost p1 = *p;
        proof {
            lemma_traced_refl(p1);
        }
        if p.terms()[i].has_lakshana("lu~N") {
            replace_dhatu(p, "2.4.45", i, "gA", false);
        } else if next_u(p, i, "Ric") {
            replace_dhatu(p, "2.4.46", i, "gami~", true);
        } else if next_u(p, i, "san") {
            replace_dhatu(p, "2.4.47", i, "gami~", true);
        }
        proof {
            crate::prakriya::lemma_rewrote_refl(p1);
            crate::prakriya::lemma_rewrote_revised(p1, p1);
            crate::prakriya::lemma_revised_trans(p0, p1, *p);
            let tr = dhatu_adesha_trace(p0, i as int, la);
            let notes: Seq<Seq<char>> = if is_ik {
                seq!["2.4.45.v1"@]
            } else {
                seq![]
            };
            assert(traced(p0, p1, notes, None, seq![]));
            assert(traced(p1, *p, seq![], tr.1, tr.2));
            lemma_traced_seq(p0, p1, *p, notes, seq![], seq![], tr.1, tr.2);
            assert(notes + seq![] =~= notes);
            assert(seq![] + tr.2 =~= tr.2);
        }
    } else if p.terms()[i].has_u("i\\N") {
        if next_u(p, i, "san") {
            replace_dhatu(p, "2.4.48", i, "gami~", false);
        } else if next_lakshana(p, i, "li~w") {
            replace_dhatu(p, "2.4.49", i, "gAN", false);
        } else if next_lakshana(p, i, "lu~N") || next_lakshana(p, i, "lf~N") {
            replace_dhatu(p, "2.4.50", i, "gAN", true);
        }
    } else if p.terms()[i].has_u("asa~") {
        replace_dhatu(p, "2.4.52", i, "BU", false);
    } else if p.terms()[i].has_u("brUY") {
        // anudAtta to prevent iT
        replace_dhatu(p, "2.4.53", i, "va\\ci~", false);
    } else if p.terms()[i].has_u("aja~") && has_n && !(p.terms()[i + 1].has_u("GaY")
        || p.terms()[i + 1].has_u("ap")) {
        let mut run = true;
        let lyuw = p.terms()[i + 1].has_u("lyuw");
        if lyuw {
            if decide(p, "2.4.57") {
                run = false;
            }
        }
        let ghost p1 = *p;
        // vArttika: valAdAvArdhadhAtuke veSyate. The endings that will begin with a vowel are
        // those of a parasmaipada ashir-liN (with yAsuT) and those of liT that begin with one.
        proof {
            crate::ac_sandhi::lemma_sound_lists();
        }
        let ac = crate::sounds::s("ac");
        let val = crate::sounds::s("val");
        let will_yasut = la == La::AshirLin && p.has_tag(T::Parasmaipada);
        let is_lit_ajadi = la == La::Lit && ac.contains_opt(p.terms()[n - 1].adi());
        let will_have_valadi = !(will_yasut || is_lit_ajadi);
        proof {
            crate::prakriya::lemma_rewrote_refl(p1);
            crate::prakriya::lemma_rewrote_revised(p1, p1);
        }
        let valadi = val.contains_opt(p.terms()[i + 1].adi()) && will_have_valadi;
        if valadi {
            if decide(p, "2.4.56.v2") {
                let ghost pb = *p;
                note(p, "2.4.56.v2");
                run = false;
                proof {
                    crate::prakriya::lemma_revised_trans(p1, pb, *p);
                    lemma_traced_seq(p1, pb, *p, seq![], seq![(true, "2.4.56.v2"@)], seq!["2.4.56.v2"@], None, seq![]);
                    assert(seq![] + seq!["2.4.56.v2"@] =~= seq!["2.4.56.v2"@]);
                    assert(seq![(true, "2.4.56.v2"@)] + seq![] =~= seq![(true, "2.4.56.v2"@)]);
                }
            }
        }
        let ghost p2 = *p;
        proof {
            if !lyuw {
                lemma_traced_refl(p0);
            }
            if !valadi {
                lemma_traced_refl(p1);
            }
            lemma_traced_refl(p2);
        }
        proof {
            crate::prakriya::lemma_revised_trans(p0, p1, p2);
            crate::prakriya::lemma_rewrote_refl(p2);
            crate::prakriya::lemma_rewrote_revised(p2, p2);
            assert(ts.last() == ts[n - 1]);
        }
        if run {
            // aniT-tva comes from anudAtta in upadesha.
            replace_dhatu(p, "2.4.56", i, "vI\\", false);
        }
        proof {
            crate::prakriya::lemma_revised_trans(p0, p2, *p);
            let tr = dhatu_adesha_trace(p0, i as int, la);
            let d1: Seq<(bool, Seq<char>)> = if lyuw {
                seq![(allows(p0.cfg().rule_choices@, "2.4.57"@), "2.4.57"@)]
            } else {
                seq![]
            };
            let v2 = allows(p0.cfg().rule_choices@, "2.4.56.v2"@);
            let d2: Seq<(bool, Seq<char>)> = if valadi {
                seq![(v2, "2.4.56.v2"@)]
            } else {
                seq![]
            };
            let notes: Seq<Seq<char>> = if valadi && v2 {
                seq!["2.4.56.v2"@]
            } else {
                seq![]
            };
            assert(traced(p0, p1, seq![], None, d1));
            assert(traced(p1, p2, notes, None, d2));
            lemma_traced_seq(p0, p1, p2, seq![], d1, notes, None, d2);
            assert(seq![] + notes =~= notes);
            assert(traced(p2, *p, seq![], tr.1, seq![]));
            lemma_traced_seq(p0, p2, *p, notes, d1 + d2, seq![], tr.1, seq![]);
            assert(notes + seq![] =~= notes);
            assert((d1 + d2) + seq![] =~= d1 + d2);
            assert(tr.2 =~= d1 + d2);
        }
    }
}

/// Whether 2.4.54 replaces the first dhatu of `p`, `ca\kzi~\N`, with `KyAY`: before an
/// ardhadhatuka lakara, and optionally not before liT (2.4.55).
pub open spec fn khya_adesha_applies(p: Prakriya, la: La) -> bool {
    let i = first_tagged(p.terms_seq(), T::Dhatu);
    &&& i >= 0
    &&& !la.spec_is_sarvadhatuka()
    &&& p.terms_seq()[i].u_is("ca\\kzi~\\N"@)
    &&& !(la == La::Lit && allows(p.cfg().rule_choices@, "2.4.55"@))
}

/// Whether `b` is `a` after 2.4.54: `a` takes the upadesha `KyAY` (`took_upadesha`), then
/// loses the tags `anudattet` and `Nit` of `ca\kzi~\N` and becomes anudatta.
pub open spec fn became_khya(a: Term, b: Term) -> bool {
    exists|m: Term|
        took_upadesha(a, m, "KyAY"@) && b.u == m.u && b.text == m.text && b.gana == m.gana
            && b.number == m.number && b.lakshana == m.lakshana && b.tags@ == m.tags@.remove(
            T::anudattet,
        ).remove(T::Nit).insert(T::Anudatta)
}

/// Replaces the dhatu `ca\kzi~\N` with `KyAY` before an ardhadhatuka lakara (2.4.54), but
/// optionally not before liT (2.4.55). `KyAY` is Yit, which allows parasmaipada, so these rules
/// run before the pada is chosen.
pub fn dhatu_adesha_before_pada(p: &mut Prakriya, la: La)
    ensures
        Prakriya::revised(*old(p), *final(p)),
        !khya_adesha_applies(*old(p), la) ==> final(p).terms_seq() == old(p).terms_seq(),
        khya_adesha_applies(*old(p), la) ==> {
            let i = first_tagged(old(p).terms_seq(), T::Dhatu);
            &&& final(p).terms_seq() == old(p).terms_seq().update(i, final(p).terms_seq()[i])
            &&& became_khya(old(p).terms_seq()[i], final(p).terms_seq()[i])
        },
{
    let ghost p0 = *p;
    proof {
        crate::prakriya::lemma_rewrote_refl(p0);
        crate::prakriya::lemma_rewrote_revised(p0, p0);
    }
    let ghost ts = p.terms_seq();
    let r = p.find_first(T::Dhatu);
    proof {
        lemma_find_first(ts, T::Dhatu, r);
    }
    let i = match r {
        Some(i) => i,
        None => {
            return;
        },
    };
    if la.is_sarvadhatuka() {
        return;
    }
    // KyAY is Yit, which allow parasamipada.
    if p.terms()[i].has_u("ca\\kzi~\\N") {
        let mut use_khya = true;
        if la == La::Lit {
            if decide(p, "2.4.55") {
                use_khya = false;
            }
        }
        let ghost p1 = *p;
        proof {
            crate::prakriya::lemma_rewrote_refl(p1);
            crate::prakriya::lemma_rewrote_revised(p1, p1);
        }
        if use_khya {
            crate::operators::upadesha(p, i, "KyAY");
            let ghost p2 = *p;
            let ghost m = p2.terms_seq()[i as int];
            // Remove the tags set by `ca\kzi~\N`, and make `KyAY` anudatta, for anit.
            if let Some(t) = p.get_mut(i) {
                t.remove_tag(T::anudattet);
                t.remove_tag(T::Nit);
                t.add_tag(T::Anudatta);
            }
            let ghost p3 = *p;
            note(p, "2.4.54");
            proof {
                crate::prakriya::lemma_rewrote_refl(p2);
                crate::prakriya::lemma_rewrote_revised(p1, p2);
                assert(Prakriya::rewrote(p2, p3));
                crate::prakriya::lemma_rewrote_revised(p2, p3);
                crate::prakriya::lemma_revised_trans(p1, p2, p3);
                crate::prakriya::lemma_revised_trans(p1, p3, *p);
                assert(p.terms_seq() =~= p0.terms_seq().update(i as int, p.terms_seq()[i as int]));
                assert(became_khya(p0.terms_seq()[i as int], p.terms_seq()[i as int]));
            }
        }
        proof {
            crate::prakriya::lemma_revised_trans(p0, p1, *p);
        }
    }
}

} // verus!
