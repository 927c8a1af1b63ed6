//! Rules that add the intermediate suffixes called vikaranas between the dhatu and the tin
//! ending (3.1.33 - 3.1.90), and the lopa of some of them (2.4.72 - 2.4.82).
use crate::constants::Tag as T;
use crate::operators::with_upadesha;
use crate::prakriya::{allows, Prakriya, Rule};
use crate::term::{seq_has_str, Term};
use crate::tripadi::is_last_tagged;
use vstd::prelude::*;

verus! {

/// The index of the last term of `ts` that has `tag`; -1 where there is none.
pub open spec fn last_tagged(ts: Seq<Term>, tag: T) -> int
    decreases ts.len(),
{
    if ts.len() == 0 {
        -1
    } else if ts.last().tagged(tag) {
        ts.len() - 1
    } else {
        last_tagged(ts.drop_last(), tag)
    }
}

proof fn lemma_last_tagged(ts: Seq<Term>, tag: T)
    ensures
        last_tagged(ts, tag) == -1 ==> forall|k: int| 0 <= k < ts.len() ==> !(#[trigger] ts[k]).tagged(tag),
        last_tagged(ts, tag) != -1 ==> is_last_tagged(ts, tag, last_tagged(ts, tag)),
    decreases ts.len(),
{
    if ts.len() > 0 {
        let init = ts.drop_last();
        lemma_last_tagged(init, tag);
        if !ts.last().tagged(tag) {
            assert forall|k: int| 0 <= k < init.len() implies init[k] == ts[k] by {}
            assert(ts.last() == ts[ts.len() - 1]);
        }
    }
}

/// `find_last` finds the index of `last_tagged`.
pub(crate) proof fn lemma_find_last(ts: Seq<Term>, tag: T, r: Option<usize>)
    requires
        r matches Some(i) ==> is_last_tagged(ts, tag, i as int),
        r is None ==> forall|k: int| 0 <= k < ts.len() ==> !(#[trigger] ts[k]).tagged(tag),
    ensures
        r matches Some(i) ==> last_tagged(ts, tag) == i,
        r is None ==> last_tagged(ts, tag) == -1,
{
    lemma_last_tagged(ts, tag);
    if last_tagged(ts, tag) != -1 {
        let l = last_tagged(ts, tag);
        if let Some(i) = r {
            if (i as int) < l {
                assert(ts[l].tagged(tag));
            } else if (i as int) > l {
                assert(ts[i as int].tagged(tag));
            }
        } else {
            assert(ts[l].tagged(tag));
        }
    }
}

/// Whether `t` is a new term made from the upadesha `v`, with the tags `tags` and nothing else.
pub open spec fn fresh_term(t: Term, v: Seq<char>, tags: Set<T>) -> bool {
    &&& t.u_is(v)
    &&& t.text@ == v
    &&& t.tags@ == tags
    &&& t.gana is None
    &&& t.number is None
    &&& t.lakshana@.len() == 0
}

/// Whether the terms `us` are the terms `ts` with the term `us[k]` inserted at `k`.
pub open spec fn inserted_at(ts: Seq<Term>, us: Seq<Term>, k: int) -> bool {
    &&& 0 <= k <= ts.len()
    &&& us.len() == ts.len() + 1
    &&& forall|m: int| 0 <= m < k ==> us[m] == ts[m]
    &&& forall|m: int| k <= m < ts.len() ==> us[m + 1] == ts[m]
}

/// Whether the terms `us` are the terms `ts` with a new term from the upadesha `v` and the tags
/// `tags` after the last dhatu; the same terms where there is no dhatu.
pub open spec fn added_after_dhatu(ts: Seq<Term>, us: Seq<Term>, v: Seq<char>, tags: Set<T>) -> bool {
    let i = last_tagged(ts, T::Dhatu);
    if i == -1 {
        us == ts
    } else {
        inserted_at(ts, us, i + 1) && fresh_term(us[i + 1], v, tags)
    }
}

/// The tags of a new vikarana.
pub open spec fn vikarana_tags() -> Set<T> {
    set![T::Pratyaya, T::Vikarana]
}

fn insert_after_dhatu(p: &mut Prakriya, t: Term)
    ensures
        Prakriya::same_but_terms(*old(p), *final(p)),
        last_tagged(old(p).terms_seq(), T::Dhatu) == -1 ==> final(p).terms_seq() == old(p).terms_seq(),
        last_tagged(old(p).terms_seq(), T::Dhatu) != -1 ==> inserted_at(
            old(p).terms_seq(),
            final(p).terms_seq(),
            last_tagged(old(p).terms_seq(), T::Dhatu) + 1,
        ) && final(p).terms_seq()[last_tagged(old(p).terms_seq(), T::Dhatu) + 1] == t,
{
    let ghost ts = p.terms_seq();
    let r = p.find_last(T::Dhatu);
    proof {
        lemma_find_last(ts, T::Dhatu, r);
    }
    if let Some(i) = r {
        p.insert_after(i, t);
    }
}

/// Inserts the vikarana `v` after the last dhatu, if there is one.
pub fn add_vikarana(p: &mut Prakriya, v: &str)
    ensures
        Prakriya::same_but_terms(*old(p), *final(p)),
        added_after_dhatu(old(p).terms_seq(), final(p).terms_seq(), v@, vikarana_tags()),
{
    let mut vikarana = Term::make_upadesha(v);
    vikarana.add_tags(&[T::Pratyaya, T::Vikarana]);
    proof {
        assert([T::Pratyaya, T::Vikarana]@.to_set() =~= vikarana_tags()) by {
            let a = [T::Pratyaya, T::Vikarana]@;
            assert(a[0] == T::Pratyaya);
            assert(a[1] == T::Vikarana);
        }
        assert(vikarana.tags@ =~= vikarana_tags());
    }
    insert_after_dhatu(p, vikarana);
}

/// Inserts the pratyaya `Am` after the last dhatu, if there is one.
pub fn add_aam(p: &mut Prakriya)
    ensures
        Prakriya::same_but_terms(*old(p), *final(p)),
        added_after_dhatu(old(p).terms_seq(), final(p).terms_seq(), "Am"@, set![T::Pratyaya]),
{
    let mut aam = Term::make_upadesha("Am");
    aam.add_tags(&[T::Pratyaya]);
    proof {
        assert([T::Pratyaya]@.to_set() =~= set![T::Pratyaya]) by {
            assert([T::Pratyaya]@[0] == T::Pratyaya);
        }
        assert(aam.tags@ =~= set![T::Pratyaya]);
    }
    insert_after_dhatu(p, aam);
}

/// Whether the term after the dhatu at `i` is the vikarana `cli~`, as opposed to some
/// substitute for it.
pub open spec fn spec_has_cli(ts: Seq<Term>, i: int) -> bool {
    0 <= i && i + 1 < ts.len() && ts[i + 1].u_is("cli~"@)
}

/// Returns whether the dhatu at index `i` is followed by the `cli~` vikarana as opposed to some
/// substitution.
pub fn has_cli(p: &Prakriya, i: usize) -> (r: bool)
    ensures
        r == spec_has_cli(p.terms_seq(), i as int),
{
    let n = p.terms().len();
    i < n && n - i > 1 && p.terms()[i + 1].has_u("cli~")
}

/// Whether the terms `us` are the terms `ts` with the term at `k` given the upadesha `sub`.
pub open spec fn renamed_at(ts: Seq<Term>, us: Seq<Term>, k: int, sub: Seq<char>) -> bool {
    &&& 0 <= k < ts.len()
    &&& us.len() == ts.len()
    &&& forall|m: int| 0 <= m < ts.len() && m != k ==> us[m] == ts[m]
    &&& with_upadesha(ts[k], us[k], sub)
}

/// Applies rule `code` by giving the term at `k` the upadesha `sub` (without the it-samjna
/// rules).
fn rule_upadesha(p: &mut Prakriya, code: Rule, k: usize, sub: &str)
    requires
        k < old(p).terms_seq().len(),
    ensures
        Prakriya::revised(*old(p), *final(p)),
        final(p).decisions() == old(p).decisions(),
        renamed_at(old(p).terms_seq(), final(p).terms_seq(), k as int, sub@),
{
    let ghost p0 = *p;
    crate::operators::upadesha_no_it(p, k, sub);
    p.step(code);
    proof {
        assert(p.steps().subrange(0, p0.steps().len() as int) =~= p0.steps());
        assert(p.decisions().subrange(0, p0.decisions().len() as int) =~= p0.decisions());
    }
}

/// Applies the optional rule `code` by giving the term at `k` the upadesha `sub`, where the rule
/// choices allow it, and records the decision either way. Returns whether it applied.
fn optional_upadesha(p: &mut Prakriya, code: Rule, k: usize, sub: &str) -> (r: bool)
    requires
        k < old(p).terms_seq().len(),
    ensures
        r == allows(old(p).cfg().rule_choices@, code@),
        Prakriya::revised(*old(p), *final(p)),
        r ==> renamed_at(old(p).terms_seq(), final(p).terms_seq(), k as int, sub@),
        !r ==> final(p).terms_seq() == old(p).terms_seq(),
{
    let ghost p0 = *p;
    if p.is_allowed(code) {
        rule_upadesha(p, code, k, sub);
        proof {
            assert(p.decisions().subrange(0, p0.decisions().len() as int) =~= p0.decisions());
        }
        true
    } else {
        p.decline(code);
        proof {
            assert(p.decisions().subrange(0, p0.decisions().len() as int) =~= p0.decisions());
            assert(p.steps().subrange(0, p0.steps().len() as int) =~= p0.steps());
        }
        false
    }
}

fn is_parasmaipada(t: &Term) -> (b: bool)
    ensures
        b == t.tagged(T::Parasmaipada),
{
    t.has_tag(T::Parasmaipada)
}

/// Whether `b` is `a` after a rule that may give the term at `k` the upadesha `sub`: where
/// `applies`, it does, and otherwise the terms stay as they are.
pub open spec fn maybe_renamed(a: Prakriya, b: Prakriya, k: int, sub: Seq<char>, applies: bool) -> bool {
    &&& Prakriya::revised(a, b)
    &&& if applies {
        renamed_at(a.terms_seq(), b.terms_seq(), k, sub)
    } else {
        b.terms_seq() == a.terms_seq()
    }
}

/// Whether `b` is `a` after `maybe_replace_cli_with_can` for the dhatu at `i`.
pub open spec fn cli_to_can(a: Prakriya, b: Prakriya, i: int) -> bool {
    let ts = a.terms_seq();
    let d = ts[i];
    let t = d.text@;
    if !spec_has_cli(ts, i) {
        b == a
    } else if a.tag_set().contains(T::Kartari) && (d.u_is("Ric"@) || d.u_is("RiN"@) || t == "Sri"@
        || t == "dru"@ || t == "sru"@) {
        maybe_renamed(a, b, i + 1, "caN"@, true)
    } else if d.u_is("kamu~\\"@) {
        maybe_renamed(a, b, i + 1, "caN"@, true)
    } else if t == "De"@ || t == "Svi"@ {
        maybe_renamed(a, b, i + 1, "caN"@, allows(a.cfg().rule_choices@, "3.1.49"@))
    } else {
        b == a
    }
}

/// Replaces `cli~` with `caN` after a causal dhatu or `Sri`, `dru` and `sru` in the active voice
/// (3.1.48), after `kam` (3.1.48.v1), and optionally after `De` and `Svi` (3.1.49).
pub fn maybe_replace_cli_with_can(p: &mut Prakriya, i: usize)
    ensures
        cli_to_can(*old(p), *final(p), i as int),
{
    proof {
        crate::prakriya::lemma_rewrote_refl(*p);
        crate::prakriya::lemma_rewrote_revised(*p, *p);
    }
    if !has_cli(p, i) {
        return;
    }
    let n = p.terms().len();
    assert(i + 1 < n);
    let d = &p.terms()[i];
    let ni = d.has_u_in(&["Ric", "RiN"]);
    let shri_dru_sru = d.has_text_in(&["Sri", "dru", "sru"]);
    if p.has_tag(T::Kartari) && (ni || shri_dru_sru) {
        rule_upadesha(p, "3.1.48", i + 1, "caN");
    } else if d.has_u("kamu~\\") {
        rule_upadesha(p, "3.1.48.v1", i + 1, "caN");
    } else if d.has_text_in(&["De", "Svi"]) {
        optional_upadesha(p, "3.1.49", i + 1, "caN");
    }
    // TODO: 3.1.50 - 3.1.51
}

/// Whether `t` is one of the dhatus of 3.1.58 (jṝstambhumrucumlucugrucuglucugluñcuśvibhyaś ca).
pub open spec fn is_jr_stambhu(t: Seq<char>) -> bool {
    ||| t == "jF"@
    ||| t == "stanB"@
    ||| t == "mruc"@
    ||| t == "mluc"@
    ||| t == "gruc"@
    ||| t == "gluc"@
    ||| t == "glunc"@
    ||| t == "Svi"@
}

/// Whether the term at `k` exists and has `tag`.
pub open spec fn has_at(ts: Seq<Term>, k: int, tag: T) -> bool {
    0 <= k < ts.len() && ts[k].tagged(tag)
}

/// Whether `b` is `a` after `maybe_replace_cli_with_an` for the dhatu at `i`.
pub open spec fn cli_to_an(a: Prakriya, b: Prakriya, i: int) -> bool {
    let ts = a.terms_seq();
    let choices = a.cfg().rule_choices@;
    let d = ts[i];
    let t = d.text@;
    if !spec_has_cli(ts, i) {
        b == a
    } else {
        let first = d.u_is("asu~"@) || t == "vac"@ || t == "KyA"@;
        let lip = t == "lip"@ || t == "sic"@ || t == "hve"@;
        let skipped = has_at(ts, i + 2, T::Atmanepada) && allows(choices, "3.1.54"@);
        if first || (lip && !skipped) {
            maybe_renamed(a, b, i + 1, "aN"@, true)
        } else if has_at(ts, i + 2, T::Parasmaipada) {
            if t == "sf"@ || t == "SAs"@ || t == "f"@ {
                maybe_renamed(a, b, i + 1, "aN"@, true)
            } else if d.tagged(T::irit) {
                maybe_renamed(a, b, i + 1, "aN"@, allows(choices, "3.1.57"@))
            } else if is_jr_stambhu(t) {
                maybe_renamed(a, b, i + 1, "aN"@, allows(choices, "3.1.58"@))
            } else {
                maybe_renamed(
                    a,
                    b,
                    i + 1,
                    "aN"@,
                    (t == "kf"@ || t == "mf"@ || t == "df"@ || t == "ruh"@) && a.tag_set().contains(
                        T::Chandasi,
                    ),
                )
            }
        } else {
            maybe_renamed(a, b, i + 1, "aN"@, false)
        }
    }
}

/// Replaces `cli~` with `aN` after `as`, `vac` and `KyA` (3.1.52), after `lip`, `sic` and `hve`
/// (3.1.53; optionally not before an atmanepada ending, 3.1.54), and, before a parasmaipada
/// ending, after `sf`, `SAs` and `f` (3.1.56), optionally after a dhatu that is irit (3.1.57) and
/// after `jF`, `stanB` and the others of 3.1.58, and after `kf`, `mf`, `df` and `ruh` in the
/// chandas (3.1.59).
pub fn maybe_replace_cli_with_an(p: &mut Prakriya, i: usize)
    ensures
        cli_to_an(*old(p), *final(p), i as int),
{
    proof {
        crate::prakriya::lemma_rewrote_refl(*p);
        crate::prakriya::lemma_rewrote_revised(*p, *p);
    }
    if !has_cli(p, i) {
        return;
    }
    let n = p.terms().len();
    assert(i + 1 < n);
    let ghost p0 = *p;
    proof {
        crate::prakriya::lemma_rewrote_refl(p0);
        crate::prakriya::lemma_rewrote_revised(p0, p0);
    }
    let d = &p.terms()[i];
    let is_first = d.has_u("asu~") || d.has_text_in(&["vac", "KyA"]);
    let is_lip = d.has_text_in(&["lip", "sic", "hve"]);
    let next_atmanepada = p.has(i + 2, crate::filters::atmanepada);
    proof {
        assert(next_atmanepada == has_at(p0.terms_seq(), i + 2, T::Atmanepada));
    }
    let ghost mut replaced = false;
    if is_first {
        rule_upadesha(p, "3.1.52", i + 1, "aN");
        proof {
            replaced = true;
        }
    } else if is_lip {
        let mut skip = false;
        if next_atmanepada {
            if p.is_allowed("3.1.54") {
                p.step("3.1.54");
                skip = true;
            } else {
                p.decline("3.1.54")
            }
        }
        let ghost p1 = *p;
        proof {
            assert(Prakriya::revised(p0, p1)) by {
                assert(p1.decisions().subrange(0, p0.decisions().len() as int) =~= p0.decisions());
                assert(p1.steps().subrange(0, p0.steps().len() as int) =~= p0.steps());
            }
        }
        if !skip {
            rule_upadesha(p, "3.1.53", i + 1, "aN");
            proof {
                crate::prakriya::lemma_revised_trans(p0, p1, *p);
                replaced = true;
            }
        }
    }
    let ghost p2 = *p;
    assert(Prakriya::revised(p0, p2));
    proof {
        crate::prakriya::lemma_rewrote_refl(p2);
        crate::prakriya::lemma_rewrote_revised(p2, p2);
    }
    // Ensure no substitution has already occurred (e.g. for Svi which can be
    // matched by 3.1.49 above).
    let d = &p.terms()[i];
    let para_cli = p.has(i + 2, is_parasmaipada) && has_cli(p, i);
    let is_sf = d.has_text_in(&["sf", "SAs", "f"]);
    let is_irit = d.has_tag(T::irit);
    let is_jr = d.has_text_in(&["jF", "stanB", "mruc", "mluc", "gruc", "gluc", "glunc", "Svi"]);
    let is_kf = d.has_text_in(&["kf", "mf", "df", "ruh"]);
    proof {
        reveal_strlit("aN");
        reveal_strlit("cli~");
        let t = p2.terms_seq()[i as int].text@;
        assert(p2.terms_seq()[i as int].text == p0.terms_seq()[i as int].text);
        assert(is_jr == is_jr_stambhu(t));
        assert(is_sf == (t == "sf"@ || t == "SAs"@ || t == "f"@));
        assert(is_kf == (t == "kf"@ || t == "mf"@ || t == "df"@ || t == "ruh"@));
        if replaced {
            assert(renamed_at(p0.terms_seq(), p2.terms_seq(), i + 1, "aN"@));
            assert(p2.terms_seq()[i + 1].u_is("aN"@));
            assert("aN"@.len() == 2 && "cli~"@.len() == 4);
            assert(!p2.terms_seq()[i + 1].u_is("cli~"@));
            assert(!spec_has_cli(p2.terms_seq(), i as int));
        } else {
            assert(p2.terms_seq() == p0.terms_seq());
        }
    }
    if para_cli {
        if is_sf {
            rule_upadesha(p, "3.1.56", i + 1, "aN");
        } else if is_irit {
            optional_upadesha(p, "3.1.57", i + 1, "aN");
        } else if is_jr {
            optional_upadesha(p, "3.1.58", i + 1, "aN");
        } else if is_kf && p.has_tag(T::Chandasi) {
            rule_upadesha(p, "3.1.59", i + 1, "aN");
        }
        proof {
            crate::prakriya::lemma_revised_trans(p0, p2, *p);
        }
    }
}

/// Whether `b` is `a` after `maybe_replace_cli_with_cin` for the dhatu at `i`.
pub open spec fn cli_to_cin(a: Prakriya, b: Prakriya, i: int) -> bool {
    let ts = a.terms_seq();
    let t = ts[i].text@;
    if !spec_has_cli(ts, i) || !(i + 2 < ts.len() && ts[i + 2].u_is("ta"@)) {
        b == a
    } else if t == "pad"@ {
        maybe_renamed(a, b, i + 1, "ciR"@, true)
    } else if t == "dIp"@ || t == "jan"@ || t == "buD"@ || t == "pUr"@ || t == "tAy"@ || t
        == "pyAy"@ {
        maybe_renamed(a, b, i + 1, "ciR"@, allows(a.cfg().rule_choices@, "3.1.61"@))
    } else {
        b == a
    }
}

/// Replaces `cli~` with `ciR` before `ta`: after `pad` (3.1.60), and optionally after `dIp`,
/// `jan`, `buD`, `pUr`, `tAy` and `pyAy` (3.1.61).
pub fn maybe_replace_cli_with_cin(p: &mut Prakriya, i: usize)
    ensures
        cli_to_cin(*old(p), *final(p), i as int),
{
    if !has_cli(p, i) {
        return;
    }
    let n = p.terms().len();
    if !(n - i > 2 && p.terms()[i + 2].has_u("ta")) {
        return;
    }
    let d = &p.terms()[i];
    if d.has_text("pad") {
        rule_upadesha(p, "3.1.60", i + 1, "ciR");
    } else if d.has_text_in(&["dIp", "jan", "buD", "pUr", "tAy", "pyAy"]) {
        optional_upadesha(p, "3.1.61", i + 1, "ciR");
    }
    // TODO: 3.1.62 - 3.1.66
}

/// Replaces `cli~` with `si~c` (3.1.44), where no other substitute has replaced it.
pub fn maybe_replace_cli_with_sic(p: &mut Prakriya, i: usize)
    ensures
        spec_has_cli(old(p).terms_seq(), i as int) ==> maybe_renamed(
            *old(p),
            *final(p),
            i + 1,
            "si~c"@,
            true,
        ),
        !spec_has_cli(old(p).terms_seq(), i as int) ==> *final(p) == *old(p),
{
    if has_cli(p, i) {
        let n = p.terms().len();
        assert(i + 1 < n);
        rule_upadesha(p, "3.1.44", i + 1, "si~c");
    }
}

// Am-pratyaya
// ===========
/// Whether `t` is the dhatu `kf` that 3.1.40 (kṛñ cānuprayujyate liṭi) adds.
pub open spec fn is_added_kf(t: Term) -> bool {
    &&& t.u_is("qukf\\Y"@)
    &&& t.text@ == "kf"@
    &&& t.tags@ == set![T::Dhatu]
    &&& t.gana == Some(8i32)
    &&& t.number == Some(10i32)
    &&& t.lakshana@.len() == 0
}

/// Whether the terms `us` are the terms `ts` with the added `kf` before the last term.
pub open spec fn kf_added(ts: Seq<Term>, us: Seq<Term>) -> bool {
    ts.len() >= 1 && inserted_at(ts, us, ts.len() - 1) && is_added_kf(us[ts.len() - 1])
}

/// Whether the terms `us` are the terms `ts` with a new `Am` that has the tags `tags` after the
/// term at `i`.
pub open spec fn am_added(ts: Seq<Term>, us: Seq<Term>, i: int, tags: Set<T>) -> bool {
    inserted_at(ts, us, i + 1) && fresh_term(us[i + 1], "Am"@, tags)
}

/// Inserts the dhatu `kf` before the tin ending (3.1.40).
pub fn add_kr_after_am_pratyaya(p: &mut Prakriya)
    requires
        old(p).terms_seq().len() >= 1,
    ensures
        Prakriya::revised(*old(p), *final(p)),
        final(p).decisions() == old(p).decisions(),
        kf_added(old(p).terms_seq(), final(p).terms_seq()),
{
    let ghost p0 = *p;
    let mut kf = Term::make_dhatu("qukf\\Y", 8, 10);
    kf.text = crate::strings::string_from("kf");
    kf.add_tag(T::Dhatu);
    proof {
        assert(kf.tags@ =~= set![T::Dhatu]);
    }
    let i_tin = p.terms().len() - 1;
    p.insert_before(i_tin, kf);
    p.step("3.1.40");
    proof {
        assert(p.steps().subrange(0, p0.steps().len() as int) =~= p0.steps());
        assert(p.decisions().subrange(0, p0.decisions().len() as int) =~= p0.decisions());
    }
}

/// Whether the terms `us` are the terms `ts` with the tag `FlagGunaApavada` added to the term
/// at `i` where `flag` holds.
pub open spec fn gunapavada_at(ts: Seq<Term>, us: Seq<Term>, i: int, flag: bool) -> bool {
    if flag {
        &&& us.len() == ts.len()
        &&& forall|k: int| 0 <= k < ts.len() && k != i ==> us[k] == ts[k]
        &&& crate::operations::same_but_text_and_tags(ts[i], us[i])
        &&& us[i].text == ts[i].text
        &&& us[i].tags@ == ts[i].tags@.insert(T::FlagGunaApavada)
    } else {
        us == ts
    }
}

fn add_gunapavada(p: &mut Prakriya, i: usize)
    requires
        i < old(p).terms_seq().len(),
    ensures
        Prakriya::same_but_terms(*old(p), *final(p)),
        gunapavada_at(old(p).terms_seq(), final(p).terms_seq(), i as int, true),
{
    if let Some(t) = p.get_mut(i) {
        t.add_tag(T::FlagGunaApavada);
    }
}

/// Whether the terms `us` are the terms `ts` after 3.1.38 (uṣavidajāgṛbhyo 'nyatarasyām) was
/// applied to the dhatu at `i`: `Am` is added twice, `vid` is marked against guna, and `kf` is
/// added.
pub open spec fn uz_vid_jagr_chain(
    ts: Seq<Term>,
    m1: Seq<Term>,
    m2: Seq<Term>,
    m3: Seq<Term>,
    us: Seq<Term>,
    i: int,
) -> bool {
    &&& am_added(ts, m1, i, set![T::Pratyaya])
    &&& am_added(m1, m2, i, set![T::Pratyaya])
    &&& gunapavada_at(m2, m3, i, ts[i].text@ == "vid"@)
    &&& kf_added(m3, us)
}

/// The sounds of the pratyahara `ic`.
pub open spec fn ic() -> Set<char> {
    crate::sounds::spec_s("ic"@)
}

proof fn lemma_ic()
    ensures
        crate::sounds::valid_sound_list("ic"@),
{
    reveal_strlit("ic");
    crate::sounds::lemma_one_word("ic"@);
    reveal_with_fuel(crate::sounds::sutra_with, 2);
    assert(crate::sounds::sutra_with('i', 0) < 14);
}

/// Whether the dhatu `d` takes `Am` by 3.1.35 - 3.1.37 before liw.
pub open spec fn takes_am_for_lit(d: Term) -> bool {
    let t = d.text@;
    ||| t == "kAs"@ || d.tagged(T::Pratyaya)
    ||| crate::filters::count_vowels(t) != 1 && !(t == "jAgf"@ || t == "UrRu"@)
    ||| t.len() > 0 && ic().contains(t[0]) && !crate::filters::spec_is_laghu(d) && !d.u_is("fCa~"@)
    ||| t == "day"@ || t == "ay"@ || t == "As"@
}

/// Whether `b` is `a` after `maybe_add_am_pratyaya_for_lit`.
pub open spec fn am_for_lit_done(a: Prakriya, b: Prakriya) -> bool {
    let ts = a.terms_seq();
    let choices = a.cfg().rule_choices@;
    let i = last_tagged(ts, T::Dhatu);
    if i == -1 {
        b == a
    } else {
        let d = ts[i];
        let t = d.text@;
        &&& Prakriya::revised(a, b)
        &&& if takes_am_for_lit(d) {
            exists|m: Seq<Term>|
                #[trigger] am_added(ts, m, i, set![T::Pratyaya]) && kf_added(m, b.terms_seq())
        } else if t == "uz"@ || t == "jAgf"@ || (t == "vid"@ && d.gana == Some(2i32)) {
            if allows(choices, "3.1.38"@) {
                exists|m1: Seq<Term>, m2: Seq<Term>, m3: Seq<Term>|
                    #[trigger] uz_vid_jagr_chain(ts, m1, m2, m3, b.terms_seq(), i)
            } else {
                am_added(ts, b.terms_seq(), i, set![T::Pratyaya])
            }
        } else if t == "BI"@ || t == "hrI"@ || t == "hu"@ || d.u_is("quBf\\Y"@) {
            if allows(choices, "3.1.39"@) {
                exists|m: Seq<Term>|
                    #[trigger] am_added(ts, m, i, set![T::Pratyaya, T::Slu]) && kf_added(
                        m,
                        b.terms_seq(),
                    )
            } else {
                b.terms_seq() == ts
            }
        } else {
            b == a
        }
    }
}

/// Inserts a new `Am` with the tags `tags` after the dhatu at `i`.
fn insert_am(p: &mut Prakriya, i: usize, tags: &[T])
    requires
        i < old(p).terms_seq().len(),
    ensures
        Prakriya::same_but_terms(*old(p), *final(p)),
        am_added(old(p).terms_seq(), final(p).terms_seq(), i as int, tags@.to_set()),
{
    let mut aam = Term::make_upadesha("Am");
    aam.add_tags(tags);
    proof {
        assert(aam.tags@ =~= tags@.to_set());
    }
    p.insert_after(i, aam);
}

/// Adds the pratyaya `Am` and then the dhatu `kf` before liw: after `kAs` and pratyayas (3.1.35),
/// after dhatus of more than one vowel (3.1.35.v1), after a heavy dhatu that begins with `ic`
/// (3.1.36), after `day`, `ay` and `As` (3.1.37), optionally after `uz`, `vid` and `jAgf`
/// (3.1.38) and after `BI`, `hrI`, `hu` and `Bf`, with the Slu-like `Am` (3.1.39).
pub fn maybe_add_am_pratyaya_for_lit(p: &mut Prakriya)
    ensures
        am_for_lit_done(*old(p), *final(p)),
{
    proof {
        lemma_ic();
    }
    let ghost p0 = *p;
    let ghost ts = p.terms_seq();
    let r = p.find_last(T::Dhatu);
    proof {
        lemma_find_last(ts, T::Dhatu, r);
        crate::prakriya::lemma_rewrote_refl(p0);
        crate::prakriya::lemma_rewrote_revised(p0, p0);
    }
    let i = match r {
        Some(i) => i,
        None => {
            return;
        },
    };
    let ic_set = crate::sounds::s("ic");
    let d = &p.terms()[i];
    let code = if d.has_text("kAs") || d.has_tag(T::Pratyaya) {
        Some("3.1.35")
    } else if !crate::filters::is_eka_ac(d) && !d.has_text_in(&["jAgf", "UrRu"]) {
        // jAgf is handled separately below.
        Some("3.1.35.v1")
    } else if ic_set.contains_opt(d.adi()) && crate::filters::is_guru(d) && !d.has_u("fCa~") {
        Some("3.1.36")
    } else if d.has_text_in(&["day", "ay", "As"]) {
        Some("3.1.37")
    } else {
        None
    };
    let first = code.is_some();
    let uz_vid = d.has_text_in(&["uz", "jAgf"]) || (d.has_text("vid") && d.gana == Some(2));
    let bhi = d.has_text_in(&["BI", "hrI", "hu"]) || d.has_u("quBf\\Y");
    let is_vid = d.has_text("vid");
    proof {
        assert(first == takes_am_for_lit(ts[i as int]));
    }
    if let Some(code) = code {
        insert_am(p, i, &[T::Pratyaya]);
        let ghost m = p.terms_seq();
        p.step(code);
        let ghost p1 = *p;
        add_kr_after_am_pratyaya(p);
        proof {
            assert([T::Pratyaya]@.to_set() =~= set![T::Pratyaya]) by {
                assert([T::Pratyaya]@[0] == T::Pratyaya);
            }
            assert(am_added(ts, m, i as int, set![T::Pratyaya]) && kf_added(m, p.terms_seq()));
            assert(p1.steps().subrange(0, p0.steps().len() as int) =~= p0.steps());
            assert(p1.decisions().subrange(0, p0.decisions().len() as int) =~= p0.decisions());
            crate::prakriya::lemma_revised_trans(p0, p1, *p);
        }
    } else if uz_vid {
        insert_am(p, i, &[T::Pratyaya]);
        let ghost m1 = p.terms_seq();
        let ghost q1 = *p;
        proof {
            assert([T::Pratyaya]@.to_set() =~= set![T::Pratyaya]) by {
                assert([T::Pratyaya]@[0] == T::Pratyaya);
            }
            assert(q1.decisions().subrange(0, p0.decisions().len() as int) =~= p0.decisions());
            assert(q1.steps().subrange(0, p0.steps().len() as int) =~= p0.steps());
        }
        if p.is_allowed("3.1.38") {
            insert_am(p, i, &[T::Pratyaya]);
            let ghost m2 = p.terms_seq();
            p.step("3.1.38");
            if is_vid {
                // vid does not go through guNa.
                add_gunapavada(p, i);
            }
            let ghost m3 = p.terms_seq();
            let ghost q2 = *p;
            add_kr_after_am_pratyaya(p);
            proof {
                assert(uz_vid_jagr_chain(ts, m1, m2, m3, p.terms_seq(), i as int));
                assert(q2.decisions().subrange(0, q1.decisions().len() as int) =~= q1.decisions());
                assert(q2.steps().subrange(0, q1.steps().len() as int) =~= q1.steps());
                crate::prakriya::lemma_revised_trans(q1, q2, *p);
                crate::prakriya::lemma_revised_trans(p0, q1, *p);
            }
        } else {
            p.decline("3.1.38");
            proof {
                assert(p.decisions().subrange(0, p0.decisions().len() as int) =~= p0.decisions());
                assert(p.steps().subrange(0, p0.steps().len() as int) =~= p0.steps());
            }
        }
    } else if bhi {
        if p.is_allowed("3.1.39") {
            insert_am(p, i, &[T::Pratyaya, T::Slu]);
            let ghost m = p.terms_seq();
            p.step("3.1.39");
            let ghost q = *p;
            add_kr_after_am_pratyaya(p);
            proof {
                assert([T::Pratyaya, T::Slu]@.to_set() =~= set![T::Pratyaya, T::Slu]) by {
                    assert([T::Pratyaya, T::Slu]@[0] == T::Pratyaya);
                    assert([T::Pratyaya, T::Slu]@[1] == T::Slu);
                }
                assert(am_added(ts, m, i as int, set![T::Pratyaya, T::Slu]) && kf_added(
                    m,
                    p.terms_seq(),
                ));
                assert(q.steps().subrange(0, p0.steps().len() as int) =~= p0.steps());
                assert(q.decisions().subrange(0, p0.decisions().len() as int) =~= p0.decisions());
                crate::prakriya::lemma_revised_trans(p0, q, *p);
            }
        } else {
            p.decline("3.1.39");
            proof {
                assert(p.decisions().subrange(0, p0.decisions().len() as int) =~= p0.decisions());
                assert(p.steps().subrange(0, p0.steps().len() as int) =~= p0.steps());
            }
        }
    }
}

/// Whether the terms `us` are the terms `ts` after 3.1.41 (vidāṅkurvantv ity anyatarasyām):
/// `Am` after the dhatu at `i`, which is marked against guna, and then `kf`.
pub open spec fn am_lot_chain(ts: Seq<Term>, m1: Seq<Term>, m2: Seq<Term>, us: Seq<Term>, i: int) -> bool {
    &&& am_added(ts, m1, i, set![T::Pratyaya])
    &&& gunapavada_at(m1, m2, i, true)
    &&& kf_added(m2, us)
}

/// Whether `b` is `a` after `maybe_add_am_pratyaya_for_lot`.
pub open spec fn am_for_lot_done(a: Prakriya, b: Prakriya) -> bool {
    let ts = a.terms_seq();
    let i = last_tagged(ts, T::Dhatu);
    if i == -1 || !(ts[i].text@ == "vid"@ && ts[i].gana == Some(2i32) && crate::term::strings_have(
        ts.last().lakshana@,
        "lo~w"@,
    )) {
        b == a
    } else {
        &&& Prakriya::revised(a, b)
        &&& if allows(a.cfg().rule_choices@, "3.1.41"@) {
            exists|m1: Seq<Term>, m2: Seq<Term>| #[trigger] am_lot_chain(ts, m1, m2, b.terms_seq(), i)
        } else {
            b.terms_seq() == ts
        }
    }
}

/// Optionally adds `Am` and then `kf` after `vid` of the second gana before lo~w (3.1.41), for
/// vidAMkurvantu and the like.
pub fn maybe_add_am_pratyaya_for_lot(p: &mut Prakriya)
    ensures
        am_for_lot_done(*old(p), *final(p)),
{
    let ghost p0 = *p;
    let ghost ts = p.terms_seq();
    let r = p.find_last(T::Dhatu);
    proof {
        lemma_find_last(ts, T::Dhatu, r);
    }
    let i = match r {
        Some(i) => i,
        None => {
            return;
        },
    };
    let n = p.terms().len();
    let is_lot = p.terms()[n - 1].has_lakshana("lo~w");
    let d = &p.terms()[i];
    if d.has_text("vid") && d.gana == Some(2) && is_lot {
        if p.is_allowed("3.1.41") {
            insert_am(p, i, &[T::Pratyaya]);
            let ghost m1 = p.terms_seq();
            p.step("3.1.41");
            // Derive by nipAtana
            add_gunapavada(p, i);
            let ghost m2 = p.terms_seq();
            let ghost q = *p;
            add_kr_after_am_pratyaya(p);
            proof {
                assert([T::Pratyaya]@.to_set() =~= set![T::Pratyaya]) by {
                    assert([T::Pratyaya]@[0] == T::Pratyaya);
                }
                assert(am_lot_chain(ts, m1, m2, p.terms_seq(), i as int));
                assert(q.steps().subrange(0, p0.steps().len() as int) =~= p0.steps());
                assert(q.decisions().subrange(0, p0.decisions().len() as int) =~= p0.decisions());
                crate::prakriya::lemma_revised_trans(p0, q, *p);
            }
        } else {
            p.decline("3.1.41");
            proof {
                assert(p.decisions().subrange(0, p0.decisions().len() as int) =~= p0.decisions());
                assert(p.steps().subrange(0, p0.steps().len() as int) =~= p0.steps());
            }
        }
    }
}

/// Whether `t` is one of the dhatus of 3.1.70 (vā bhrāśabhlāśabhramukramuklamutrasitruṭilaṣaḥ).
pub open spec fn is_bhrash(t: Seq<char>) -> bool {
    t == "BrAS"@ || t == "BlAS"@ || t == "Bram"@ || t == "kram"@ || t == "klam"@ || t == "tras"@
        || t == "truw"@ || t == "laz"@
}

/// The optional vikarana of 3.1.70 - 3.1.82 for the dhatu `d`: the rule and the vikarana.
pub open spec fn optional_vikarana(d: Term) -> Option<(Seq<char>, Seq<char>)> {
    let t = d.text@;
    if is_bhrash(t) {
        Some(("3.1.70"@, "Syan"@))
    } else if d.u_is("yasu~"@) {
        Some(("3.1.71"@, "Syan"@))
    } else if d.u_is("akzU~"@) {
        Some(("3.1.75"@, "Snu"@))
    } else if d.u_is("takzU~"@) {
        Some(("3.1.76"@, "Snu"@))
    } else if d.u_is("sta\\nBu~"@) || d.u_is("stu\\nBu~"@) || d.u_is("ska\\nBu~"@) || d.u_is(
        "sku\\nBu~"@,
    ) || d.u_is("sku\\Y"@) {
        Some(("3.1.82"@, "Snu"@))
    } else {
        None
    }
}

/// Whether some term of `ts` is a vikarana.
pub open spec fn has_vikarana(ts: Seq<Term>) -> bool {
    exists|k: int| 0 <= k < ts.len() && (#[trigger] ts[k]).tagged(T::Vikarana)
}

/// Whether the terms `us` are the terms `ts` with the term at `i` marked `Snam` and given `na`
/// after its last vowel (3.1.78, rudhādibhyaḥ śnam).
pub open spec fn snam_added(ts: Seq<Term>, us: Seq<Term>, i: int) -> bool {
    &&& 0 <= i < ts.len()
    &&& us.len() == ts.len()
    &&& forall|k: int| 0 <= k < ts.len() && k != i ==> us[k] == ts[k]
    &&& crate::operations::same_but_text_and_tags(ts[i], us[i])
    &&& us[i].tags@ == ts[i].tags@.insert(T::Snam)
    &&& us[i].text@ == crate::operations::insert_after_last_vowel(ts[i].text@, "na"@)
}

/// Whether the terms `us` are the terms `ts` with the term at `i` given the text `text` and
/// then the vikarana `v` after the dhatu.
pub open spec fn retexted_then_added(ts: Seq<Term>, m: Seq<Term>, us: Seq<Term>, i: int, text: Seq<char>, v: Seq<char>) -> bool {
    crate::operators::retexted(ts, m, i, text) && added_after_dhatu(m, us, v, vikarana_tags())
}

/// Whether the terms `us` are the terms `ts` after the general vikarana rules (3.1.68 - 3.1.81)
/// for the dhatu `d` at `i`, where `gana_4_declined` says whether 3.1.70 was declined for a
/// dhatu of the fourth gana.
pub open spec fn main_vikarana(ts: Seq<Term>, us: Seq<Term>, i: int, gana_4_declined: bool) -> bool {
    let d = ts[i];
    let t = d.text@;
    if d.gana == Some(4i32) && !gana_4_declined {
        added_after_dhatu(ts, us, "Syan"@, vikarana_tags())
    } else if d.gana == Some(5i32) {
        added_after_dhatu(ts, us, "Snu"@, vikarana_tags())
    } else if t == "Sru"@ {
        exists|m: Seq<Term>| #[trigger] retexted_then_added(ts, m, us, i, "Sf"@, "Snu"@)
    } else if d.gana == Some(6i32) {
        added_after_dhatu(ts, us, "Sa"@, vikarana_tags())
    } else if d.gana == Some(7i32) {
        snam_added(ts, us, i)
    } else if d.gana == Some(8i32) || d.u_is("qukf\\Y"@) {
        added_after_dhatu(ts, us, "u"@, vikarana_tags())
    } else if d.u_is("Divi~"@) || d.u_is("kfvi~"@) {
        exists|m: Seq<Term>|
            #[trigger] retexted_then_added(ts, m, us, i, crate::operations::replace_antya(t, "a"@), "u"@)
    } else if d.gana == Some(9i32) {
        added_after_dhatu(ts, us, "SnA"@, vikarana_tags())
    } else {
        added_after_dhatu(ts, us, "Sap"@, vikarana_tags())
    }
}

/// Whether `b` is `a` after `add_sarvadhatuka_vikarana`.
pub open spec fn sarvadhatuka_vikarana_done(a: Prakriya, b: Prakriya) -> bool {
    let ts = a.terms_seq();
    let choices = a.cfg().rule_choices@;
    let i = last_tagged(ts, T::Dhatu);
    if i == -1 {
        b == a
    } else {
        let d = ts[i];
        &&& Prakriya::revised(a, b)
        &&& if !a.tag_set().contains(T::Kartari) {
            added_after_dhatu(ts, b.terms_seq(), "yak"@, vikarana_tags())
        } else {
            let opt = optional_vikarana(d);
            if opt is Some && allows(choices, (opt->0).0) {
                added_after_dhatu(ts, b.terms_seq(), (opt->0).1, vikarana_tags())
            } else if has_vikarana(ts) {
                b.terms_seq() == ts
            } else {
                let declined = is_bhrash(d.text@) && d.gana == Some(4i32);
                main_vikarana(ts, b.terms_seq(), i, declined)
            }
        }
    }
}

/// Applies rule `code` by inserting the vikarana `v` after the last dhatu: `op` with
/// `add_vikarana`.
fn rule_vikarana(p: &mut Prakriya, code: Rule, v: &str)
    ensures
        Prakriya::revised(*old(p), *final(p)),
        final(p).decisions() == old(p).decisions(),
        added_after_dhatu(old(p).terms_seq(), final(p).terms_seq(), v@, vikarana_tags()),
{
    let ghost p0 = *p;
    add_vikarana(p, v);
    p.step(code);
    proof {
        assert(p.steps().subrange(0, p0.steps().len() as int) =~= p0.steps());
        assert(p.decisions().subrange(0, p0.decisions().len() as int) =~= p0.decisions());
    }
}

/// Applies the optional rule `code` by inserting the vikarana `v` after the last dhatu, where the
/// rule choices allow it, and records the decision either way: `op_optional` with
/// `add_vikarana`.
fn optional_vikarana_rule(p: &mut Prakriya, code: Rule, v: &str) -> (r: bool)
    ensures
        r == allows(old(p).cfg().rule_choices@, code@),
        Prakriya::revised(*old(p), *final(p)),
        r ==> added_after_dhatu(old(p).terms_seq(), final(p).terms_seq(), v@, vikarana_tags()),
        !r ==> final(p).terms_seq() == old(p).terms_seq(),
{
    let ghost p0 = *p;
    if p.is_allowed(code) {
        rule_vikarana(p, code, v);
        proof {
            assert(p.decisions().subrange(0, p0.decisions().len() as int) =~= p0.decisions());
        }
        true
    } else {
        p.decline(code);
        proof {
            assert(p.decisions().subrange(0, p0.decisions().len() as int) =~= p0.decisions());
            assert(p.steps().subrange(0, p0.steps().len() as int) =~= p0.steps());
        }
        false
    }
}

fn is_vikarana(t: &Term) -> (b: bool)
    ensures
        b == t.tagged(T::Vikarana),
{
    t.has_tag(T::Vikarana)
}

/// Adds the vikarana of a sarvadhatuka pratyaya (3.1.67 - 3.1.82): `yak` outside the active
/// voice (3.1.67), the optional vikaranas of some dhatus (3.1.70 - 3.1.82), and otherwise the
/// vikarana of the dhatu's gana, `Sap` by default (3.1.68).
pub fn add_sarvadhatuka_vikarana(p: &mut Prakriya)
    ensures
        sarvadhatuka_vikarana_done(*old(p), *final(p)),
{
    let ghost p0 = *p;
    let ghost ts = p.terms_seq();
    let r = p.find_last(T::Dhatu);
    proof {
        lemma_find_last(ts, T::Dhatu, r);
        crate::prakriya::lemma_rewrote_refl(p0);
        crate::prakriya::lemma_rewrote_revised(p0, p0);
    }
    let i = match r {
        Some(i) => i,
        None => {
            return;
        },
    };
    if !p.has_tag(T::Kartari) {
        rule_vikarana(p, "3.1.67", "yak");
        return;
    }
    // Optional cases
    let d = &p.terms()[i];
    let mut gana_4_declined = false;
    let bhrash = d.has_text_in(&["BrAS", "BlAS", "Bram", "kram", "klam", "tras", "truw", "laz"]);
    let is_stanbhu = d.has_u_in(&["sta\\nBu~", "stu\\nBu~", "ska\\nBu~", "sku\\nBu~", "sku\\Y"]);
    let is_gana_4 = d.gana == Some(4);
    let mut applied = false;
    if bhrash {
        applied = optional_vikarana_rule(p, "3.1.70", "Syan");
        // Needed to make 3.1.69 available to roots like Bram
        if !applied && is_gana_4 {
            gana_4_declined = true;
        }
        // TODO: anupasarga
    } else if d.has_u("yasu~") {
        applied = optional_vikarana_rule(p, "3.1.71", "Syan");
    } else if d.has_u("akzU~") {
        applied = optional_vikarana_rule(p, "3.1.75", "Snu");
    } else if d.has_u("takzU~") {
        applied = optional_vikarana_rule(p, "3.1.76", "Snu");
    } else if is_stanbhu {
        applied = optional_vikarana_rule(p, "3.1.82", "Snu");
    }
    let ghost p1 = *p;
    proof {
        let opt = optional_vikarana(ts[i as int]);
        assert(bhrash == is_bhrash(ts[i as int].text@));
        assert(applied == (opt is Some && allows(p0.cfg().rule_choices@, (opt->0).0)));
        if applied {
            assert(added_after_dhatu(ts, p1.terms_seq(), (opt->0).1, vikarana_tags()));
        } else {
            assert(p1.terms_seq() == ts);
        }
    }
    if p.find_first_where(is_vikarana).is_some() {
        proof {
            if !applied {
                assert(has_vikarana(ts)) by {
                    let k = choose|k: int| 0 <= k < ts.len() && call_ensures(is_vikarana, (&ts[k],), true);
                    assert(ts[k].tagged(T::Vikarana));
                }
            }
        }
        return;
    }
    proof {
        if applied {
            let k = last_tagged(ts, T::Dhatu) + 1;
            assert(call_ensures(is_vikarana, (&p1.terms_seq()[k],), false));
        }
        assert(!has_vikarana(ts)) by {
            if has_vikarana(ts) {
                let k = choose|k: int| 0 <= k < ts.len() && (#[trigger] ts[k]).tagged(T::Vikarana);
                assert(call_ensures(is_vikarana, (&ts[k],), false));
            }
        }
    }
    let d = &p.terms()[i];
    if d.gana == Some(4) && !gana_4_declined {
        rule_vikarana(p, "3.1.69", "Syan");
    } else if d.gana == Some(5) {
        rule_vikarana(p, "3.1.73", "Snu");
    } else if d.has_text("Sru") {
        let ghost q0 = *p;
        set_text_at(p, i, "Sf");
        let ghost m = p.terms_seq();
        add_vikarana(p, "Snu");
        p.step("3.1.74");
        proof {
            assert(retexted_then_added(ts, m, p.terms_seq(), i as int, "Sf"@, "Snu"@)) by {
                lemma_find_last_same_tags(ts, m);
            }
            assert(p.steps().subrange(0, q0.steps().len() as int) =~= q0.steps());
            assert(p.decisions().subrange(0, q0.decisions().len() as int) =~= q0.decisions());
        }
    } else if d.gana == Some(6) {
        rule_vikarana(p, "3.1.77", "Sa");
    } else if d.gana == Some(7) {
        let ghost q0 = *p;
        add_snam(p, i);
        p.step("3.1.78");
        proof {
            assert(p.steps().subrange(0, q0.steps().len() as int) =~= q0.steps());
            assert(p.decisions().subrange(0, q0.decisions().len() as int) =~= q0.decisions());
        }
    } else if d.gana == Some(8) || d.has_u("qukf\\Y") {
        rule_vikarana(p, "3.1.79", "u");
    } else if d.has_u_in(&["Divi~", "kfvi~"]) {
        let ghost q0 = *p;
        antya_at(p, i, "a");
        let ghost m = p.terms_seq();
        add_vikarana(p, "u");
        p.step("3.1.80");
        proof {
            assert(retexted_then_added(
                ts,
                m,
                p.terms_seq(),
                i as int,
                crate::operations::replace_antya(ts[i as int].text@, "a"@),
                "u"@,
            )) by {
                lemma_find_last_same_tags(ts, m);
            }
            assert(p.steps().subrange(0, q0.steps().len() as int) =~= q0.steps());
            assert(p.decisions().subrange(0, q0.decisions().len() as int) =~= q0.decisions());
        }
    } else if d.gana == Some(9) {
        rule_vikarana(p, "3.1.81", "SnA");
    } else {
        rule_vikarana(p, "3.1.68", "Sap");
    }
    proof {
        crate::prakriya::lemma_revised_trans(p0, p1, *p);
    }
}

/// Terms that keep their tags keep the place of the last dhatu.
proof fn lemma_find_last_same_tags(ts: Seq<Term>, us: Seq<Term>)
    requires
        ts.len() == us.len(),
        forall|k: int| 0 <= k < ts.len() ==> (#[trigger] ts[k]).tags == us[k].tags,
    ensures
        last_tagged(ts, T::Dhatu) == last_tagged(us, T::Dhatu),
    decreases ts.len(),
{
    if ts.len() > 0 {
        assert(ts.last() == ts[ts.len() - 1]);
        assert(us.last() == us[us.len() - 1]);
        assert forall|k: int| 0 <= k < ts.drop_last().len() implies (#[trigger] ts.drop_last()[k]).tags
            == us.drop_last()[k].tags by {
            assert(ts[k].tags == us[k].tags);
        }
        lemma_find_last_same_tags(ts.drop_last(), us.drop_last());
    }
}

fn set_text_at(p: &mut Prakriya, i: usize, text: &str)
    requires
        i < old(p).terms_seq().len(),
    ensures
        Prakriya::same_but_terms(*old(p), *final(p)),
        crate::operators::retexted(old(p).terms_seq(), final(p).terms_seq(), i as int, text@),
{
    if let Some(t) = p.get_mut(i) {
        t.text = crate::strings::string_from(text);
    }
}

fn antya_at(p: &mut Prakriya, i: usize, sub: &str)
    requires
        i < old(p).terms_seq().len(),
    ensures
        Prakriya::same_but_terms(*old(p), *final(p)),
        crate::operators::retexted(
            old(p).terms_seq(),
            final(p).terms_seq(),
            i as int,
            crate::operations::replace_antya(old(p).terms_seq()[i as int].text@, sub@),
        ),
{
    if let Some(t) = p.get_mut(i) {
        crate::operations::antya(t, sub);
    }
}

/// Marks the dhatu at `i` with `Snam` and inserts `na` after its last vowel (3.1.78).
fn add_snam(p: &mut Prakriya, i: usize)
    requires
        i < old(p).terms_seq().len(),
    ensures
        Prakriya::same_but_terms(*old(p), *final(p)),
        snam_added(old(p).terms_seq(), final(p).terms_seq(), i as int),
{
    if let Some(t) = p.get_mut(i) {
        t.add_tag(T::Snam);
        crate::operations::mit(t, "na");
    }
}

// Lopa of the vikarana
// ====================
/// Whether the terms `us` are the terms `ts` with the term at `k`, if there is one, deleted by
/// luk.
pub open spec fn luk_at(ts: Seq<Term>, us: Seq<Term>, k: int) -> bool {
    if 0 <= k < ts.len() {
        &&& us.len() == ts.len()
        &&& forall|m: int| 0 <= m < ts.len() && m != k ==> us[m] == ts[m]
        &&& crate::operations::same_but_text_and_tags(ts[k], us[k])
        &&& us[k].text@.len() == 0
        &&& us[k].tags@ == ts[k].tags@.insert(T::Luk)
    } else {
        us == ts
    }
}

/// Applies rule `code` by deleting the term at `k` through luk: `op` with `luk`.
fn rule_luk(p: &mut Prakriya, code: Rule, k: usize)
    ensures
        Prakriya::revised(*old(p), *final(p)),
        final(p).decisions() == old(p).decisions(),
        luk_at(old(p).terms_seq(), final(p).terms_seq(), k as int),
{
    let ghost p0 = *p;
    if let Some(t) = p.get_mut(k) {
        crate::operations::luk(t);
    }
    p.step(code);
    proof {
        assert(p.steps().subrange(0, p0.steps().len() as int) =~= p0.steps());
        assert(p.decisions().subrange(0, p0.decisions().len() as int) =~= p0.decisions());
    }
}

/// Whether `t` is one of the dhatus of 2.4.77 (gātisthāghupābhūbhyaḥ sicaḥ parasmaipadeṣu).
pub open spec fn is_gati_stha(t: Term) -> bool {
    let x = t.text@;
    ||| x == "gA"@ && t.gana == Some(2i32)
    ||| x == "sTA"@
    ||| t.tagged(T::Ghu)
    ||| x == "pA"@ && t.gana == Some(1i32)
    ||| x == "BU"@
}

/// Whether `b` is `a` after `maybe_sic_lopa_before_parasmaipada` for the dhatu at `i`, the
/// vikarana at `iv` and the tin ending at `it`.
pub open spec fn sic_lopa_done(a: Prakriya, b: Prakriya, i: int, iv: int, it: int) -> bool {
    let ts = a.terms_seq();
    let choices = a.cfg().rule_choices@;
    if !(0 <= it < ts.len() && ts[it].tagged(T::Parasmaipada)) {
        b == a
    } else {
        let has_dhatu = 0 <= i < ts.len();
        let t = ts[i].text@;
        let optional = has_dhatu && (t == "GrA"@ || t == "De"@ || t == "So"@ || t == "Co"@ || t
            == "so"@);
        &&& Prakriya::revised(a, b)
        &&& if optional && allows(choices, "2.4.78"@) {
            if t == "De"@ {
                b.terms_seq() == ts
            } else {
                luk_at(ts, b.terms_seq(), iv)
            }
        } else if has_dhatu && is_gati_stha(ts[i]) {
            luk_at(ts, b.terms_seq(), iv)
        } else {
            b.terms_seq() == ts
        }
    }
}

fn gati_stha(t: &Term) -> (b: bool)
    ensures
        b == is_gati_stha(*t),
{
    (t.has_text("gA") && t.gana == Some(2)) || t.has_text("sTA") || t.has_tag(T::Ghu) || (
    t.has_text("pA") && t.gana == Some(1)) || t.has_text("BU")
}

/// Deletes `si~c` by luk before a parasmaipada ending after `gA`, `sTA`, the ghu dhatus, `pA`
/// and `BU` (2.4.77); optionally after `GrA`, `So`, `Co` and `so`, and optionally not after `De`
/// (2.4.78).
pub fn maybe_sic_lopa_before_parasmaipada(p: &mut Prakriya, i: usize, i_vikarana: usize, i_tin: usize)
    ensures
        sic_lopa_done(*old(p), *final(p), i as int, i_vikarana as int, i_tin as int),
{
    let ghost p0 = *p;
    proof {
        crate::prakriya::lemma_rewrote_refl(p0);
        crate::prakriya::lemma_rewrote_revised(p0, p0);
    }
    if !p.has(i_tin, is_parasmaipada) {
        return;
    }
    let n = p.terms().len();
    let has_dhatu = i < n;
    let optional = has_dhatu && p.terms()[i].has_text_in(&["GrA", "De", "So", "Co", "so"]);
    let is_de = has_dhatu && p.terms()[i].has_text("De");
    let stha = has_dhatu && gati_stha(&p.terms()[i]);
    proof {
        if has_dhatu {
            let t = p0.terms_seq()[i as int].text@;
            assert(optional == (t == "GrA"@ || t == "De"@ || t == "So"@ || t == "Co"@ || t == "so"@));
        }
    }
    if optional {
        let code = "2.4.78";
        // De takes luk by 2.4.77, so 2.4.78 allows aluk.
        if is_de {
            if p.is_allowed(code) {
                p.step(code);
                proof {
                    assert(p.steps().subrange(0, p0.steps().len() as int) =~= p0.steps());
                    assert(p.decisions().subrange(0, p0.decisions().len() as int) =~= p0.decisions());
                }
                return;
            } else {
                p.decline(code);
            }
        } else {
            // The other roots avoid luk by default, so 2.4.78 allows luk.
            if p.is_allowed(code) {
                let ghost q = *p;
                rule_luk(p, code, i_vikarana);
                proof {
                    assert(q.decisions().subrange(0, p0.decisions().len() as int) =~= p0.decisions());
                    crate::prakriya::lemma_revised_trans(p0, q, *p);
                }
                return;
            } else {
                p.decline(code);
            }
        }
    }
    let ghost q = *p;
    proof {
        assert(Prakriya::revised(p0, q)) by {
            assert(q.decisions().subrange(0, p0.decisions().len() as int) =~= p0.decisions());
            assert(q.steps().subrange(0, p0.steps().len() as int) =~= p0.steps());
        }
        crate::prakriya::lemma_rewrote_refl(q);
        crate::prakriya::lemma_rewrote_revised(q, q);
    }
    // Run only if aluk was not used above.
    if stha {
        rule_luk(p, "2.4.77", i_vikarana);
    }
    proof {
        crate::prakriya::lemma_revised_trans(p0, q, *p);
        assert(q.terms_seq() == p0.terms_seq());
        assert(!(optional && allows(p0.cfg().rule_choices@, "2.4.78"@)));
        if stha {
            assert(luk_at(p0.terms_seq(), p.terms_seq(), i_vikarana as int));
        } else {
            assert(p.terms_seq() == p0.terms_seq());
        }
    }
}


/// The dhatus whose `cli~` 3.1.44.v1 optionally replaces with `si~c` before a parasmaipada.
pub open spec fn sprs_adi() -> Seq<&'static str> {
    seq!["spfS", "mfS", "kfz", "tfp", "dfp"]
}

/// Whether 3.1.55 (puzAdidyutAdyxditaH parasmEpadezu) is in question for the dhatu `d`: one of
/// `push_adi` of the fourth gana, one of `dyut_adi` of the first, or an xdit.
pub open spec fn pushadi_dyutadi_ldit(d: Term, push_adi: Seq<&str>, dyut_adi: Seq<&str>) -> bool {
    (crate::sanadi::u_in(d, push_adi) && d.gana == Some(4i32)) || (crate::sanadi::u_in(d, dyut_adi)
        && d.gana == Some(1i32)) || d.tagged(T::xdit)
}

/// Whether 3.1.45 (Sala igupaDAd aniwaH ksaH) is in question for the dhatu `d`: it ends in a sound
/// of `Sal`, its upadha is of `ik`, and it is anudatta or udit.
pub open spec fn shal_igupadha_anit(d: Term) -> bool {
    crate::it_agama::in_s(crate::term::spec_antya(d.text@), "Sal"@) && crate::it_agama::in_s(
        crate::term::spec_upadha(d.text@),
        "ik"@,
    ) && (d.tagged(T::Anudatta) || d.tagged(T::Udit))
}

/// Whether 3.1.44.v1 replaces `cli~` with `si~c` after the dhatu at `i`: one of `sprs_adi` before
/// a parasmaipada, where the rule choices allow it.
pub open spec fn ksa_sic(a: Prakriya, i: int) -> bool {
    let ts = a.terms_seq();
    seq_has_str(sprs_adi(), ts[i].text@) && has_at(ts, i + 2, T::Parasmaipada) && allows(
        a.cfg().rule_choices@,
        "3.1.44.v1"@,
    )
}

/// Whether `b` is `a` after `maybe_replace_cli_with_ksa` for the dhatu at `i`: 3.1.44.v1, else
/// 3.1.55 (`aN`), else 3.1.45 - 3.1.47 (`ksa`, where 3.1.47 keeps it from `dfS`, 3.1.46 makes it
/// optional for `Sliz` of the fourth gana and 3.1.45 for an udit dhatu, which then marks the
/// derivation with `FlagAnitKsa`).
pub open spec fn cli_to_ksa(a: Prakriya, b: Prakriya, i: int, push_adi: Seq<&str>, dyut_adi: Seq<&str>) -> bool {
    let ts = a.terms_seq();
    let d = ts[i];
    let cs = a.cfg().rule_choices@;
    if !spec_has_cli(ts, i) {
        b == a
    } else if ksa_sic(a, i) {
        maybe_renamed(a, b, i + 1, "si~c"@, true)
    } else if pushadi_dyutadi_ldit(d, push_adi, dyut_adi) && has_at(ts, i + 2, T::Parasmaipada) {
        maybe_renamed(a, b, i + 1, "aN"@, true)
    } else if shal_igupadha_anit(d) {
        if d.text@ == "dfS"@ {
            maybe_renamed(a, b, i + 1, "ksa"@, false)
        } else if d.text@ == "Sliz"@ && d.gana == Some(4i32) {
            maybe_renamed(a, b, i + 1, "ksa"@, allows(cs, "3.1.46"@))
        } else if d.tagged(T::Udit) {
            &&& b.tag_set() == if allows(cs, "3.1.45"@) {
                a.tag_set().insert(T::FlagAnitKsa)
            } else {
                a.tag_set()
            }
            &&& b.cfg() == a.cfg()
            &&& a.decisions().len() <= b.decisions().len()
            &&& b.decisions().subrange(0, a.decisions().len() as int) == a.decisions()
            &&& a.steps().len() <= b.steps().len()
            &&& b.steps().subrange(0, a.steps().len() as int) == a.steps()
            &&& if allows(cs, "3.1.45"@) {
                renamed_at(ts, b.terms_seq(), i + 1, "ksa"@)
            } else {
                b.terms_seq() == ts
            }
        } else {
            maybe_renamed(a, b, i + 1, "ksa"@, true)
        }
    } else {
        Prakriya::revised(a, b) && b.terms_seq() == a.terms_seq()
    }
}


fn is_sal_ik_anit(t: &Term, sal: &crate::sounds::SoundSet, ik: &crate::sounds::SoundSet) -> (b: bool)
    requires
        sal@ == crate::sounds::spec_s("Sal"@),
        ik@ == crate::sounds::spec_s("ik"@),
    ensures
        b == shal_igupadha_anit(*t),
{
    sal.contains_opt(t.antya()) && ik.contains_opt(t.upadha()) && (t.has_tag(T::Anudatta)
        || t.has_tag(T::Udit))
}

/// Applies the rules that might replace `cli~` with `ksa` after the dhatu at `i` (3.1.44.v1,
/// 3.1.45 - 3.1.47, 3.1.55), as `cli_to_ksa` says; `push_adi` and `dyut_adi` are the dhatus of
/// 3.1.55.
pub fn maybe_replace_cli_with_ksa(p: &mut Prakriya, i: usize, push_adi: &[&str], dyut_adi: &[&str])
    ensures
        cli_to_ksa(*old(p), *final(p), i as int, push_adi@, dyut_adi@),
{
    let ghost p0 = *p;
    proof {
        crate::prakriya::lemma_rewrote_refl(p0);
        crate::prakriya::lemma_rewrote_revised(p0, p0);
        lemma_ksa_sounds();
    }
    if !has_cli(p, i) {
        return;
    }
    let sal = crate::sounds::s("Sal");
    let ik = crate::sounds::s("ik");
    let sprs = ["spfS", "mfS", "kfz", "tfp", "dfp"];
    assert(sprs@ =~= sprs_adi());
    let n = p.terms().len();
    let z_para = n - i > 2 && p.terms()[i + 2].has_tag(T::Parasmaipada);
    let d = &p.terms()[i];
    // The vArttika doesn't say this specifically, but the commentator examples imply that this
    // holds only for parasmaipada.
    let is_sprs = d.has_text_in(&sprs) && z_para;
    let push = (d.has_u_in(push_adi) && d.has_gana(4)) || (d.has_u_in(dyut_adi) && d.has_gana(1))
        || d.has_tag(T::xdit);
    let shal = is_sal_ik_anit(d, &sal, &ik);
    let drs = d.has_text("dfS");
    let sliz = d.has_text("Sliz") && d.has_gana(4);
    let udit = d.has_tag(T::Udit);
    if is_sprs {
        if optional_upadesha(p, "3.1.44.v1", i + 1, "si~c") {
            return;
        }
    }
    let ghost p1 = *p;
    if push && z_para {
        rule_upadesha(p, "3.1.55", i + 1, "aN");
    } else if shal {
        if drs {
            p.step("3.1.47");
        } else if sliz {
            optional_upadesha(p, "3.1.46", i + 1, "ksa");
        } else if udit {
            if p.is_allowed("3.1.45") {
                let ghost q = *p;
                crate::operators::upadesha_no_it(p, i + 1, "ksa");
                // Needed if we use "ksa" with a veT root.
                p.add_tag(T::FlagAnitKsa);
                p.step("3.1.45");
                proof {
                    assert(p.steps().subrange(0, p0.steps().len() as int) =~= p0.steps());
                }
            } else {
                p.decline("3.1.45");
            }
        } else {
            rule_upadesha(p, "3.1.45", i + 1, "ksa");
        }
    }
    proof {
        assert(p.steps().subrange(0, p0.steps().len() as int) =~= p.steps().subrange(
            0,
            p1.steps().len() as int,
        ).subrange(0, p0.steps().len() as int));
        assert(p.decisions().subrange(0, p0.decisions().len() as int) =~= p.decisions().subrange(
            0,
            p1.decisions().len() as int,
        ).subrange(0, p0.decisions().len() as int));
        assert(p.steps().subrange(0, p0.steps().len() as int) =~= p0.steps());
        assert(p.decisions().subrange(0, p0.decisions().len() as int) =~= p0.decisions());
    }
}

proof fn lemma_ksa_sounds()
    ensures
        crate::sounds::valid_sound_list("Sal"@),
        crate::sounds::valid_sound_list("ik"@),
{
    crate::ac_sandhi::lemma_sound_lists();
    reveal_strlit("Sal");
    crate::sounds::lemma_one_word("Sal"@);
    reveal_with_fuel(crate::sounds::sutra_with, 15);
    assert(crate::sounds::sutra_with('S', 0) < 14);
}


/// Whether `b` is `a` after 3.1.43 (cli luNi) adds `cli~` after the last dhatu, with its step.
pub open spec fn cli_added(a: Prakriya, b: Prakriya) -> bool {
    &&& Prakriya::rewrote(a, b)
    &&& added_after_dhatu(a.terms_seq(), b.terms_seq(), "cli~"@, vikarana_tags())
}

/// Whether `b` is `a` after the vikarana rules for luN, by way of the states `a1` to `a5`: 3.1.43
/// adds `cli~`, and the rules that replace it with `ksa`, `caN`, `aN`, `ciR` and `si~c` run in
/// turn on the dhatu third from the end.
pub open spec fn lun_chain(
    a: Prakriya,
    a1: Prakriya,
    a2: Prakriya,
    a3: Prakriya,
    a4: Prakriya,
    a5: Prakriya,
    b: Prakriya,
    push_adi: Seq<&str>,
    dyut_adi: Seq<&str>,
) -> bool {
    let i = a1.terms_seq().len() - 3;
    &&& cli_added(a, a1)
    &&& cli_to_ksa(a1, a2, i, push_adi, dyut_adi)
    &&& cli_to_can(a2, a3, i)
    &&& cli_to_an(a3, a4, i)
    &&& cli_to_cin(a4, a5, i)
    &&& (spec_has_cli(a5.terms_seq(), i) ==> maybe_renamed(a5, b, i + 1, "si~c"@, true))
    &&& (!spec_has_cli(a5.terms_seq(), i) ==> b == a5)
}

/// Applies the vikarana rules for luN (3.1.43 - 3.1.66), as `lun_chain` says; `push_adi` and
/// `dyut_adi` are the dhatus of 3.1.55.
pub fn add_lun_vikarana(p: &mut Prakriya, push_adi: &[&str], dyut_adi: &[&str])
    requires
        old(p).terms_seq().len() + if last_tagged(old(p).terms_seq(), T::Dhatu) == -1 {
            0int
        } else {
            1int
        } >= 3,
    ensures
        exists|a1: Prakriya, a2: Prakriya, a3: Prakriya, a4: Prakriya, a5: Prakriya|
            #[trigger] lun_chain(*old(p), a1, a2, a3, a4, a5, *final(p), push_adi@, dyut_adi@),
{
    let ghost p0 = *p;
    add_vikarana(p, "cli~");
    let ghost q = *p;
    p.step("3.1.43");
    let ghost a1 = *p;
    proof {
        crate::prakriya::lemma_rewrote_refl(p0);
        assert(q.steps().subrange(0, q.steps().len() as int) =~= q.steps());
        crate::prakriya::lemma_rewrote_trans(p0, q, a1);
    }
    let n = p.terms().len();
    let i = n - 3;
    maybe_replace_cli_with_ksa(p, i, push_adi, dyut_adi);
    let ghost a2 = *p;
    maybe_replace_cli_with_can(p, i);
    let ghost a3 = *p;
    maybe_replace_cli_with_an(p, i);
    let ghost a4 = *p;
    maybe_replace_cli_with_cin(p, i);
    let ghost a5 = *p;
    maybe_replace_cli_with_sic(p, i);
    assert(lun_chain(p0, a1, a2, a3, a4, a5, *p, push_adi@, dyut_adi@));
}

/// Whether `b` is `a` after 2.4.79 (tanAdiByas taTAsoH) for the dhatu at `i`, the vikarana at
/// `iv` and the tin ending at `it`: after one of `tan_adi`, before `ta` or `TAs`, `si~c` is
/// optionally deleted by luk.
pub open spec fn tanadi_sic_lopa(a: Prakriya, b: Prakriya, i: int, iv: int, it: int, tan_adi: Seq<&str>) -> bool {
    let ts = a.terms_seq();
    let applies = 0 <= i < ts.len() && seq_has_str(tan_adi, ts[i].text@) && 0 <= it < ts.len()
        && seq_has_str(seq!["ta", "TAs"], ts[it].text@);
    if applies {
        &&& Prakriya::revised(a, b)
        &&& if allows(a.cfg().rule_choices@, "2.4.79"@) {
            luk_at(ts, b.terms_seq(), iv)
        } else {
            b.terms_seq() == ts
        }
    } else {
        b == a
    }
}

fn maybe_sic_lopa_for_tanadi_atmanepada(
    p: &mut Prakriya,
    i: usize,
    i_vikarana: usize,
    i_tin: usize,
    tan_adi: &[&str],
)
    ensures
        tanadi_sic_lopa(*old(p), *final(p), i as int, i_vikarana as int, i_tin as int, tan_adi@),
{
    let ghost p0 = *p;
    let ta = ["ta", "TAs"];
    assert(ta@ =~= seq!["ta", "TAs"]);
    let n = p.terms().len();
    let tanadi = i < n && p.terms()[i].has_text_in(tan_adi);
    let tathasoh = i_tin < n && p.terms()[i_tin].has_text_in(&ta);
    if tanadi && tathasoh {
        if p.is_allowed("2.4.79") {
            rule_luk(p, "2.4.79", i_vikarana);
            proof {
                assert(p.decisions().subrange(0, p0.decisions().len() as int) =~= p0.decisions());
            }
        } else {
            p.decline("2.4.79");
            proof {
                assert(p.decisions().subrange(0, p0.decisions().len() as int) =~= p0.decisions());
                assert(p.steps().subrange(0, p0.steps().len() as int) =~= p0.steps());
            }
        }
    }
}

/// Whether the terms `us` are the terms `ts` with the term at `k` deleted by Slu.
pub open spec fn slu_at(ts: Seq<Term>, us: Seq<Term>, k: int) -> bool {
    &&& 0 <= k < ts.len()
    &&& us.len() == ts.len()
    &&& forall|m: int| 0 <= m < ts.len() && m != k ==> us[m] == ts[m]
    &&& crate::operations::same_but_text_and_tags(ts[k], us[k])
    &&& us[k].text@.len() == 0
    &&& us[k].tags@ == ts[k].tags@.insert(T::Slu)
}

/// The index of the first vikarana of `ts`; -1 where there is none.
pub open spec fn first_vikarana(ts: Seq<Term>) -> int {
    crate::ardhadhatuka::first_tagged(ts, T::Vikarana)
}

/// Whether `b` is `a` after the rules that delete the vikarana (2.4.72 - 2.4.82), with the last
/// dhatu, the first vikarana and the last tin of `a`, where the vikarana follows the dhatu:
/// `Sap` goes by luk after a dhatu of the second gana (2.4.72) and by Slu after one of the third
/// (2.4.75); `si~c` goes as `sic_lopa_done` and then `tanadi_sic_lopa` say.
pub open spec fn vikarana_lopa_done(a: Prakriya, b: Prakriya, tan_adi: Seq<&str>) -> bool {
    let ts = a.terms_seq();
    let i = last_tagged(ts, T::Dhatu);
    let iv = first_vikarana(ts);
    let it = last_tagged(ts, T::Tin);
    if i == -1 || iv == -1 || it == -1 || i + 1 != iv {
        b == a
    } else if ts[iv].text@ == "Sap"@ {
        if ts[i].gana == Some(2i32) {
            Prakriya::revised(a, b) && luk_at(ts, b.terms_seq(), iv) && b.decisions() == a.decisions()
        } else if ts[i].gana == Some(3i32) {
            Prakriya::revised(a, b) && slu_at(ts, b.terms_seq(), iv) && b.decisions() == a.decisions()
        } else {
            b == a
        }
    } else if ts[iv].text@ == "si~c"@ {
        exists|m: Prakriya|
            #[trigger] sic_lopa_done(a, m, i, iv, it) && tanadi_sic_lopa(m, b, i, iv, it, tan_adi)
    } else {
        b == a
    }
}

/// Deletes the vikarana for certain roots and ganas (2.4.72 - 2.4.82), as `vikarana_lopa_done`
/// says; `tan_adi` are the dhatus of 2.4.79.
pub fn vikarana_lopa(p: &mut Prakriya, tan_adi: &[&str])
    ensures
        vikarana_lopa_done(*old(p), *final(p), tan_adi@),
{
    let ghost p0 = *p;
    let ghost ts = p.terms_seq();
    let r = p.find_last(T::Dhatu);
    proof {
        lemma_find_last(ts, T::Dhatu, r);
    }
    let i = match r {
        Some(i) => i,
        None => return,
    };
    let rv = p.find_first(T::Vikarana);
    proof {
        crate::ardhadhatuka::lemma_find_first(ts, T::Vikarana, rv);
    }
    let i_vikarana = match rv {
        Some(i) => i,
        None => return,
    };
    let rt = p.find_last(T::Tin);
    proof {
        lemma_find_last(ts, T::Tin, rt);
    }
    let i_tin = match rt {
        Some(i) => i,
        None => return,
    };
    // The vikarana follows the dhatu.
    if i_vikarana == 0 || i != i_vikarana - 1 {
        return;
    }
    let v = &p.terms()[i_vikarana];
    if v.has_text("Sap") {
        if p.terms()[i].has_gana(2) {
            rule_luk(p, "2.4.72", i_vikarana);
        } else if p.terms()[i].has_gana(3) {
            if let Some(t) = p.get_mut(i_vikarana) {
                crate::operations::slu(t);
            }
            p.step("2.4.75");
            proof {
                assert(p.steps().subrange(0, p0.steps().len() as int) =~= p0.steps());
                assert(p.decisions().subrange(0, p0.decisions().len() as int) =~= p0.decisions());
            }
        }
    } else if v.has_text("si~c") {
        maybe_sic_lopa_before_parasmaipada(p, i, i_vikarana, i_tin);
        let ghost m = *p;
        maybe_sic_lopa_for_tanadi_atmanepada(p, i, i_vikarana, i_tin, tan_adi);
        assert(sic_lopa_done(p0, m, i as int, i_vikarana as int, i_tin as int));
    }
}


/// Whether the term `t` has one of the former upadeshas `xs`.
pub open spec fn from_la(t: Term, xs: Seq<&'static str>) -> bool {
    t.lakshana_among(xs)
}

/// Whether `b` is `a` after the vikarana that the last term asks for: `sya` before lrT and lrN
/// and `tAsi~` before luT (3.1.33); the rules of luN (`lun_chain`); the Am of liT
/// (`am_for_lit_done`); and before a sarvadhatuka, the Am of loT (`am_for_lot_done`) and the
/// vikarana of the gana (`sarvadhatuka_vikarana_done`).
pub open spec fn vikarana_added(a: Prakriya, b: Prakriya, push_adi: Seq<&str>, dyut_adi: Seq<&str>) -> bool {
    let ts = a.terms_seq();
    if ts.len() == 0 {
        b == a
    } else {
        let tin = ts.last();
        if from_la(tin, seq!["lf~w", "lf~N", "lu~w"]) {
            &&& Prakriya::rewrote(a, b)
            &&& added_after_dhatu(
                ts,
                b.terms_seq(),
                if from_la(tin, seq!["lf~w", "lf~N"]) {
                    "sya"@
                } else {
                    "tAsi~"@
                },
                vikarana_tags(),
            )
        } else if from_la(tin, seq!["lu~N"]) {
            exists|a1: Prakriya, a2: Prakriya, a3: Prakriya, a4: Prakriya, a5: Prakriya|
                #[trigger] lun_chain(a, a1, a2, a3, a4, a5, b, push_adi, dyut_adi)
        } else if from_la(tin, seq!["li~w"]) {
            am_for_lit_done(a, b)
        } else if tin.tagged(T::Sarvadhatuka) {
            if from_la(tin, seq!["lo~w"]) {
                exists|m: Prakriya| #[trigger] am_for_lot_done(a, m) && sarvadhatuka_vikarana_done(m, b)
            } else {
                sarvadhatuka_vikarana_done(a, b)
            }
        } else {
            b == a
        }
    }
}

/// Whether `b` is `a` after the it-samjna rules ran on its first vikarana, where it has one with
/// a text; `ok` says whether they ran to the end.
pub open spec fn vikarana_it_samjna(a: Prakriya, b: Prakriya, ok: bool) -> bool {
    let iv = first_vikarana(a.terms_seq());
    if iv == -1 || a.terms_seq()[iv].text@.len() == 0 || !crate::it_samjna::has_upadesha_at(a, iv) {
        ok && b == a
    } else {
        let t = a.terms_seq()[iv];
        let res = crate::it_samjna::it_samjna_outcome(t.u->0@, t.text@, t.tags@);
        crate::it_samjna::term_became(a, b, iv, res.0, res.1) && (ok <==> res.2)
    }
}

/// Whether `b` is `a` after the long `A` of `gA` (of the first gana) absorbs the `a` after it
/// (6.1.101), which is done early because it blocks other rules.
pub open spec fn ga_merged(a: Prakriya, b: Prakriya) -> bool {
    let ts = a.terms_seq();
    let d = crate::ardhadhatuka::first_tagged(ts, T::Dhatu);
    if d != -1 && ts[d].text@ == "gA"@ && d + 1 < ts.len() && ts[d + 1].text@ == "a"@ {
        &&& Prakriya::rewrote(a, b)
        &&& crate::operators::retexted(ts, b.terms_seq(), d + 1, Seq::empty())
    } else {
        b == a
    }
}

/// Whether `b` is `a` after the vikarana rules, by way of the states `a1` to `a3`:
/// `vikarana_added`, `vikarana_lopa_done`, `vikarana_it_samjna` and `ga_merged`; where the
/// it-samjna rules cannot run to the end, the result `ok` is false and the rules stop there.
pub open spec fn vikarana_chain(
    a: Prakriya,
    a1: Prakriya,
    a2: Prakriya,
    a3: Prakriya,
    b: Prakriya,
    push_adi: Seq<&str>,
    dyut_adi: Seq<&str>,
    tan_adi: Seq<&str>,
    ok: bool,
) -> bool {
    &&& vikarana_added(a, a1, push_adi, dyut_adi)
    &&& vikarana_lopa_done(a1, a2, tan_adi)
    &&& exists|k: bool| #[trigger] vikarana_it_samjna(a2, a3, k) && if k {
        ok && ga_merged(a3, b)
    } else {
        !ok && b == a3
    }
}

/// Whether the last term asks for the vikarana of luN, whose rules need the dhatu third from the
/// end once `cli~` is added.
pub open spec fn asks_lun(ts: Seq<Term>) -> bool {
    ts.len() > 0 && !from_la(ts.last(), seq!["lf~w", "lf~N", "lu~w"]) && from_la(ts.last(), seq!["lu~N"])
}

/// Adds the vikarana that the lakara and the gana ask for, deletes it where the rules say so,
/// and runs the it-samjna rules on it (3.1.33 - 3.1.90, 2.4.72 - 2.4.82), as `vikarana_chain`
/// says. `push_adi`, `dyut_adi` and `tan_adi` are the dhatus of 3.1.55 and 2.4.79. Returns the
/// error of the it-samjna rules, if they cannot run to the end.
pub fn run(p: &mut Prakriya, push_adi: &[&str], dyut_adi: &[&str], tan_adi: &[&str]) -> (r: Result<
    (),
    crate::constants::PrakriyaError,
>)
    requires
        asks_lun(old(p).terms_seq()) ==> old(p).terms_seq().len() + if last_tagged(
            old(p).terms_seq(),
            T::Dhatu,
        ) == -1 {
            0int
        } else {
            1int
        } >= 3,
    ensures
        exists|a1: Prakriya, a2: Prakriya, a3: Prakriya|
            #[trigger] vikarana_chain(
                *old(p),
                a1,
                a2,
                a3,
                *final(p),
                push_adi@,
                dyut_adi@,
                tan_adi@,
                r is Ok,
            ),
{
    let ghost p0 = *p;
    proof {
        crate::prakriya::lemma_rewrote_refl(p0);
    }
    let lf = ["lf~w", "lf~N", "lu~w"];
    assert(lf@ =~= seq!["lf~w", "lf~N", "lu~w"]);
    let lf2 = ["lf~w", "lf~N"];
    assert(lf2@ =~= seq!["lf~w", "lf~N"]);
    let lun = ["lu~N"];
    assert(lun@ =~= seq!["lu~N"]);
    let lit = ["li~w"];
    assert(lit@ =~= seq!["li~w"]);
    let lot = ["lo~w"];
    assert(lot@ =~= seq!["lo~w"]);
    let n = p.terms().len();
    if n > 0 {
        let tin = &p.terms()[n - 1];
        assert(*tin == p0.terms_seq().last());
        if tin.has_lakshana_in(&lf) {
            let v = if tin.has_lakshana_in(&lf2) {
                "sya"
            } else {
                "tAsi~"
            };
            add_vikarana(p, v);
            let ghost q = *p;
            p.step("3.1.33");
            proof {
                assert(q.steps().subrange(0, q.steps().len() as int) =~= q.steps());
                crate::prakriya::lemma_rewrote_trans(p0, q, *p);
            }
        } else if tin.has_lakshana_in(&lun) {
            add_lun_vikarana(p, push_adi, dyut_adi);
        } else if tin.has_lakshana_in(&lit) {
            maybe_add_am_pratyaya_for_lit(p);
        } else if tin.has_tag(T::Sarvadhatuka) {
            if tin.has_lakshana_in(&lot) {
                // Just for vidāṅkurvantu, etc.
                maybe_add_am_pratyaya_for_lot(p);
                let ghost m = *p;
                add_sarvadhatuka_vikarana(p);
                assert(am_for_lot_done(p0, m) && sarvadhatuka_vikarana_done(m, *p));
            } else {
                add_sarvadhatuka_vikarana(p);
            }
        }
    }
    let ghost a1 = *p;
    assert(vikarana_added(p0, a1, push_adi@, dyut_adi@));
    vikarana_lopa(p, tan_adi);
    let ghost a2 = *p;
    let ghost ts2 = a2.terms_seq();
    let rv = p.find_first(T::Vikarana);
    proof {
        crate::ardhadhatuka::lemma_find_first(ts2, T::Vikarana, rv);
        crate::prakriya::lemma_rewrote_refl(a2);
    }
    if let Some(iv) = rv {
        // Run it-samjna-prakarana only after the lopa phase is complete.
        if p.terms()[iv].text.as_str().unicode_len() > 0 {
            let r = crate::it_samjna::run(p, iv);
            let ghost a3 = *p;
            if r.is_err() {
                assert(vikarana_it_samjna(a2, a3, false));
                assert(vikarana_chain(p0, a1, a2, a3, *p, push_adi@, dyut_adi@, tan_adi@, r is Ok));
                return r;
            }
            assert(vikarana_it_samjna(a2, a3, true));
        }
    }
    let ghost a3 = *p;
    assert(vikarana_it_samjna(a2, a3, true));
    // HACK for gAN gatau (bhvAdi). The long A should be handled early because it blocks
    // `AtmanepadezvanataH` && `Ato GitaH`.
    let ghost ts3 = a3.terms_seq();
    let rd = p.find_first(T::Dhatu);
    proof {
        crate::ardhadhatuka::lemma_find_first(ts3, T::Dhatu, rd);
        crate::prakriya::lemma_rewrote_refl(a3);
    }
    if let Some(i) = rd {
        let m = p.terms().len();
        if i + 1 < m && p.terms()[i].has_text("gA") && p.terms()[i + 1].has_text("a") {
            crate::operators::term_text(p, "6.1.101", i + 1, "");
            proof {
                reveal_strlit("");
                assert(""@ =~= Seq::<char>::empty());
                assert(p.steps().subrange(0, a3.steps().len() as int) =~= a3.steps());
            }
        }
    }
    let r: Result<(), crate::constants::PrakriyaError> = Ok(());
    assert(ga_merged(a3, *p));
    assert(vikarana_chain(p0, a1, a2, a3, *p, push_adi@, dyut_adi@, tan_adi@, r is Ok));
    r
}

} // verus!
