//! Rules of 8.2 that change the sounds at the edges of single terms.
use crate::constants::Tag as T;
use crate::operations::{replace_antya, same_but_text};
use crate::operators::{retexted, term_antya, term_antya_optional};
use crate::prakriya::{allows, Prakriya, RuleChoice};
use crate::sounds;
use crate::sounds::{
    filter_in, lemma_filter_in_nonempty, lemma_joined_words, lemma_one_word, panini_order, spec_s,
    valid_sound_list, SoundSet,
};
use crate::term::{lemma_next_nonempty_found, lemma_next_nonempty_none, next_nonempty, Term};
use crate::tripadi::{jhal, lemma_jhal_lists, sound_mapping};
use vstd::prelude::*;

verus! {

fn not_empty(t: &Term) -> (b: bool)
    ensures
        b == (t.text@.len() > 0),
{
    !crate::filters::empty(t)
}

/// Returns the index of the first term after term `i` that has text, if there is one.
pub(crate) fn next_with_text(p: &Prakriya, i: usize) -> (r: Option<usize>)
    ensures
        r is None <==> next_nonempty(p.terms_seq(), i + 1) == -1,
        r matches Some(j) ==> j == next_nonempty(p.terms_seq(), i + 1) && i < j < p.terms_seq().len()
            && p.terms_seq()[j as int].text@.len() > 0,
{
    let ghost ts = p.terms_seq();
    let r = p.find_next_where(i, not_empty);
    proof {
        match r {
            Some(j) => {
                assert forall|k: int| i + 1 <= k < j implies (#[trigger] ts[k]).text@.len() == 0 by {
                    assert(call_ensures(not_empty, (&ts[k],), false));
                }
                assert(call_ensures(not_empty, (&ts[j as int],), true));
                lemma_next_nonempty_found(ts, i + 1, j as int);
            },
            None => {
                if i < ts.len() {
                    assert forall|k: int| i + 1 <= k < ts.len() implies (#[trigger] ts[k]).text@.len()
                        == 0 by {
                        assert(call_ensures(not_empty, (&ts[k],), false));
                    }
                    lemma_next_nonempty_none(ts, i + 1);
                }
            },
        }
    }
    r
}

/// Terms whose texts agree from `j` on have the same first term with text from `j` on.
pub proof fn lemma_next_nonempty_suffix(ts: Seq<Term>, us: Seq<Term>, j: int)
    requires
        ts.len() == us.len(),
        forall|k: int| j <= k < ts.len() ==> (#[trigger] ts[k]).text@ == us[k].text@,
    ensures
        next_nonempty(ts, j) == next_nonempty(us, j),
    decreases ts.len() - j,
{
    if 0 <= j < ts.len() {
        lemma_next_nonempty_suffix(ts, us, j + 1);
    }
}

/// The first term with text from `j` on lies at `j` or later and has text.
pub proof fn lemma_next_nonempty_range(ts: Seq<Term>, j: int)
    ensures
        next_nonempty(ts, j) == -1 || (j <= next_nonempty(ts, j) < ts.len()
            && ts[next_nonempty(ts, j)].text@.len() > 0),
    decreases ts.len() - j,
{
    if 0 <= j < ts.len() && ts[j].text@.len() == 0 {
        lemma_next_nonempty_range(ts, j + 1);
    }
}

/// Whether the first term after term `i` of `ts` that has text begins with a sound of `Jal`,
/// or no term after it has text.
pub open spec fn jhali_or_ante(ts: Seq<Term>, i: int) -> bool {
    let n = next_nonempty(ts, i + 1);
    n == -1 || jhal().contains(ts[n].text@[0])
}

/// Whether `t` is one of the dhatus of 8.2.33 (druhamuhaṣṇuhaṣṇihāṃ vā).
pub open spec fn is_druha_muha(t: Term) -> bool {
    t.u_is("dru\\ha~"@) || t.u_is("mu\\ha~"@) || t.u_is("zRu\\ha~"@) || t.u_is("zRi\\ha~"@)
}

/// The text of `t` after 8.2.32 - 8.2.35, which change the final `h` of some dhatus, where the
/// rule choices are `choices`.
pub open spec fn dhatu_ha_text(choices: Seq<RuleChoice>, t: Term) -> Seq<char> {
    if !t.tagged(T::Dhatu) {
        t.text@
    } else if is_druha_muha(t) {
        if allows(choices, "8.2.33"@) {
            replace_antya(t.text@, "G"@)
        } else {
            t.text@
        }
    } else if t.u_is("Ra\\ha~^"@) {
        replace_antya(t.text@, "D"@)
    } else if t.text@ == "Ah"@ {
        replace_antya(t.text@, "T"@)
    } else if t.text@.len() > 0 && t.text@[0] == 'd' && t.text@.last() == 'h' {
        replace_antya(t.text@, "G"@)
    } else {
        t.text@
    }
}

/// The text of `t` after 8.2.31 - 8.2.35 (ho ḍhaḥ and its exceptions), before a sound of `Jal`
/// or at the end.
pub open spec fn ha_text(choices: Seq<RuleChoice>, t: Term) -> Seq<char> {
    let t1 = dhatu_ha_text(choices, t);
    if t1.len() > 0 && t1.last() == 'h' {
        replace_antya(t1, "Q"@)
    } else {
        t1
    }
}

/// Whether term `i` of `us` is term `i` of `ts` after `try_ha_adesha`.
pub open spec fn ha_adesha_done(choices: Seq<RuleChoice>, ts: Seq<Term>, us: Seq<Term>, i: int) -> bool {
    &&& same_but_text(ts[i], us[i])
    &&& us[i].text@ == if jhali_or_ante(ts, i) {
        ha_text(choices, ts[i])
    } else {
        ts[i].text@
    }
}

/// Whether `us` are the terms `ts` with only term `i` changed, and changed in its text alone.
pub open spec fn only_text_at(ts: Seq<Term>, us: Seq<Term>, i: int) -> bool {
    &&& us.len() == ts.len()
    &&& forall|k: int| 0 <= k < ts.len() && k != i ==> #[trigger] us[k] == ts[k]
    &&& same_but_text(ts[i], us[i])
}

fn is_last_h(t: &Term) -> (b: bool)
    ensures
        b == (t.text@.len() > 0 && t.text@.last() == 'h'),
{
    t.has_antya('h')
}

/// Applies 8.2.31 - 8.2.35 to term `i`.
fn ha_adesha_at(p: &mut Prakriya, i: usize, jhal_set: &SoundSet)
    requires
        i < old(p).terms_seq().len(),
        jhal_set@ == jhal(),
    ensures
        Prakriya::revised(*old(p), *final(p)),
        only_text_at(old(p).terms_seq(), final(p).terms_seq(), i as int),
        ha_adesha_done(old(p).cfg().rule_choices@, old(p).terms_seq(), final(p).terms_seq(), i as int),
{
    let ghost p0 = *p;
    let ghost ts = p.terms_seq();
    let ghost choices = p.cfg().rule_choices@;
    proof {
        crate::prakriya::lemma_rewrote_refl(p0);
        crate::prakriya::lemma_rewrote_revised(p0, p0);
    }
    let jhali = match next_with_text(p, i) {
        Some(j) => jhal_set.contains_opt(p.terms()[j].adi()),
        None => true,
    };
    if !jhali {
        return;
    }
    if p.terms()[i].has_tag(T::Dhatu) {
        let dhatu = &p.terms()[i];
        if dhatu.has_u_in(&["dru\\ha~", "mu\\ha~", "zRu\\ha~", "zRi\\ha~"]) {
            term_antya_optional(p, "8.2.33", i, "G");
        } else if dhatu.has_u("Ra\\ha~^") {
            term_antya(p, "8.2.34", i, "D");
            proof { crate::prakriya::lemma_rewrote_revised(p0, *p); }
        } else if dhatu.has_text("Ah") {
            term_antya(p, "8.2.35", i, "T");
            proof { crate::prakriya::lemma_rewrote_revised(p0, *p); }
        } else if dhatu.has_adi('d') && dhatu.has_antya('h') {
            term_antya(p, "8.2.32", i, "G");
            proof { crate::prakriya::lemma_rewrote_revised(p0, *p); }
        }
    }
    let ghost p1 = *p;
    proof {
        assert(p1.terms_seq()[i as int].text@ == dhatu_ha_text(choices, ts[i as int]));
    }
    // If no change was made, use the default.
    if p.terms()[i].has_antya('h') {
        term_antya(p, "8.2.31", i, "Q");
        proof {
            crate::prakriya::lemma_rewrote_revised(p1, *p);
            crate::prakriya::lemma_revised_trans(p0, p1, *p);
        }
    }
}

/// Changes the final `h` of a term before a sound of `Jal` or at the end: to `Q` by 8.2.31
/// (ho ḍhaḥ), or, for some dhatus, to `G`, `D` or `T` by 8.2.32 - 8.2.35.
/// Example: muh + ta -> mugdha.
pub fn try_ha_adesha(p: &mut Prakriya) -> (r: Option<()>)
    ensures
        r is Some,
        Prakriya::revised(*old(p), *final(p)),
        final(p).terms_seq().len() == old(p).terms_seq().len(),
        forall|i: int|
            0 <= i < old(p).terms_seq().len() ==> #[trigger] ha_adesha_done(
                old(p).cfg().rule_choices@,
                old(p).terms_seq(),
                final(p).terms_seq(),
                i,
            ),
{
    proof {
        lemma_jhal_lists();
        crate::prakriya::lemma_rewrote_refl(*p);
        crate::prakriya::lemma_rewrote_revised(*p, *p);
    }
    let jhal_set = sounds::s("Jal");
    let ghost ts = p.terms_seq();
    let ghost choices = p.cfg().rule_choices@;
    let n = p.terms().len();
    let mut i: usize = 0;
    while i < n
        invariant
            i <= n,
            n == ts.len(),
            ts == old(p).terms_seq(),
            choices == old(p).cfg().rule_choices@,
            jhal_set@ == jhal(),
            p.terms_seq().len() == n,
            Prakriya::revised(*old(p), *p),
            forall|k: int| 0 <= k < i ==> #[trigger] ha_adesha_done(choices, ts, p.terms_seq(), k),
            forall|k: int| i <= k < n ==> #[trigger] p.terms_seq()[k] == ts[k],
        decreases n - i,
    {
        let ghost before = *p;
        ha_adesha_at(p, i, &jhal_set);
        proof {
            crate::prakriya::lemma_revised_trans(*old(p), before, *p);
            let bs = before.terms_seq();
            assert forall|k: int| i + 1 <= k < n implies (#[trigger] bs[k]).text@ == ts[k].text@ by {
                assert(bs[k] == ts[k]);
            }
            lemma_next_nonempty_suffix(bs, ts, i + 1);
            assert(bs[i as int] == ts[i as int]);
            let m = next_nonempty(ts, i + 1);
            lemma_next_nonempty_range(ts, i + 1);
            if m != -1 {
                assert(bs[m] == ts[m]);
            }
            assert(ha_adesha_done(choices, ts, p.terms_seq(), i as int));
            assert forall|k: int| 0 <= k < i + 1 implies #[trigger] ha_adesha_done(
                choices,
                ts,
                p.terms_seq(),
                k,
            ) by {
                if k < i {
                    assert(ha_adesha_done(choices, ts, bs, k));
                    assert(p.terms_seq()[k] == bs[k]);
                }
            }
            assert forall|k: int| i + 1 <= k < n implies #[trigger] p.terms_seq()[k] == ts[k] by {
                assert(p.terms_seq()[k] == bs[k]);
            }
        }
        i = i + 1;
    }
    Some(())
}

/// Whether `t` is one of the terms of 8.2.36 (vraścabhrasjasṛjamṛjayajarājabhrājacchaśāṃ ṣaḥ)
/// that is named by its upadesha.
pub open spec fn is_vrascha(t: Term) -> bool {
    ||| t.u_is("o~vrascU~"@)
    ||| t.u_is("Bra\\sja~^"@)
    ||| t.u_is("sf\\ja~\\"@)
    ||| t.u_is("sf\\ja~"@)
    ||| t.u_is("mfjU~"@)
    ||| t.u_is("ya\\ja~^"@)
    ||| t.u_is("rAj"@)
    ||| t.u_is("BrAjf~\\"@)
}

/// Whether 8.2.36 applies to term `i` of `ts`: the term is one of its dhatus or ends in `C` or
/// `S`, before a sound of `Jal` or at the end.
pub open spec fn ch_to_s_applies(ts: Seq<Term>, i: int) -> bool {
    let t = ts[i].text@;
    &&& is_vrascha(ts[i]) || (t.len() > 0 && (t.last() == 'C' || t.last() == 'S'))
    &&& jhali_or_ante(ts, i)
}

/// `t` after 8.2.36: a final `tC` or else the last sound becomes `z`.
pub open spec fn sha_text(t: Seq<char>) -> Seq<char> {
    if t.len() >= 2 && t.subrange(t.len() - 2, t.len() as int) == "tC"@ {
        t.subrange(0, t.len() - 2) + "z"@
    } else {
        replace_antya(t, "z"@)
    }
}

/// Whether term `i` of `us` is term `i` of `ts` after `try_ch_to_s`.
pub open spec fn ch_to_s_done(ts: Seq<Term>, us: Seq<Term>, i: int) -> bool {
    &&& same_but_text(ts[i], us[i])
    &&& us[i].text@ == if ch_to_s_applies(ts, i) {
        sha_text(ts[i].text@)
    } else {
        ts[i].text@
    }
}

/// Applies 8.2.36 to term `i`.
fn ch_to_s_at(p: &mut Prakriya, i: usize, jhal_set: &SoundSet)
    requires
        i < old(p).terms_seq().len(),
        jhal_set@ == jhal(),
    ensures
        Prakriya::rewrote(*old(p), *final(p)),
        only_text_at(old(p).terms_seq(), final(p).terms_seq(), i as int),
        ch_to_s_done(old(p).terms_seq(), final(p).terms_seq(), i as int),
{
    proof {
        crate::prakriya::lemma_rewrote_refl(*p);
        reveal_strlit("tC");
    }
    let x = &p.terms()[i];
    if !(x.has_u_in(
        &[
            "o~vrascU~",
            "Bra\\sja~^",
            "sf\\ja~\\",
            "sf\\ja~",
            "mfjU~",
            "ya\\ja~^",
            "rAj",
            "BrAjf~\\",
        ],
    ) || x.has_antya('C') || x.has_antya('S')) {
        return;
    }
    let jhali = match next_with_text(p, i) {
        Some(j) => jhal_set.contains_opt(p.terms()[j].adi()),
        None => true,
    };
    if !jhali {
        return;
    }
    let x = &p.terms()[i];
    if crate::strings::ends_with(x.text.as_str(), "tC") {
        let n = x.text.as_str().unicode_len();
        let new_text = crate::operations::splice(x.text.as_str(), n - 2, n, "z");
        crate::operators::term_text(p, "8.2.36", i, new_text.as_str());
    } else {
        term_antya(p, "8.2.36", i, "z");
    }
}

/// Changes the final `C` or `S` of a term, or the final sound of some dhatus, to `z` before a
/// sound of `Jal` or at the end (8.2.36, vraścabhrasjasṛjamṛjayajarājabhrājacchaśāṃ ṣaḥ).
pub fn try_ch_to_s(p: &mut Prakriya)
    ensures
        Prakriya::rewrote(*old(p), *final(p)),
        final(p).terms_seq().len() == old(p).terms_seq().len(),
        forall|i: int|
            0 <= i < old(p).terms_seq().len() ==> #[trigger] ch_to_s_done(
                old(p).terms_seq(),
                final(p).terms_seq(),
                i,
            ),
{
    proof {
        lemma_jhal_lists();
        crate::prakriya::lemma_rewrote_refl(*p);
    }
    let jhal_set = sounds::s("Jal");
    let ghost ts = p.terms_seq();
    let n = p.terms().len();
    let mut i: usize = 0;
    while i < n
        invariant
            i <= n,
            n == ts.len(),
            ts == old(p).terms_seq(),
            jhal_set@ == jhal(),
            p.terms_seq().len() == n,
            Prakriya::rewrote(*old(p), *p),
            forall|k: int| 0 <= k < i ==> #[trigger] ch_to_s_done(ts, p.terms_seq(), k),
            forall|k: int| i <= k < n ==> #[trigger] p.terms_seq()[k] == ts[k],
        decreases n - i,
    {
        let ghost before = *p;
        ch_to_s_at(p, i, &jhal_set);
        proof {
            crate::prakriya::lemma_rewrote_trans(*old(p), before, *p);
            let bs = before.terms_seq();
            assert forall|k: int| i + 1 <= k < n implies (#[trigger] bs[k]).text@ == ts[k].text@ by {
                assert(bs[k] == ts[k]);
            }
            lemma_next_nonempty_suffix(bs, ts, i + 1);
            assert(bs[i as int] == ts[i as int]);
            let m = next_nonempty(ts, i + 1);
            lemma_next_nonempty_range(ts, i + 1);
            if m != -1 {
                assert(bs[m] == ts[m]);
            }
            assert(ch_to_s_done(ts, p.terms_seq(), i as int));
            assert forall|k: int| 0 <= k < i + 1 implies #[trigger] ch_to_s_done(
                ts,
                p.terms_seq(),
                k,
            ) by {
                if k < i {
                    assert(ch_to_s_done(ts, bs, k));
                    assert(p.terms_seq()[k] == bs[k]);
                }
            }
            assert forall|k: int| i + 1 <= k < n implies #[trigger] p.terms_seq()[k] == ts[k] by {
                assert(p.terms_seq()[k] == bs[k]);
            }
        }
        i = i + 1;
    }
}

/// The mapping of 8.2.30 (coḥ kuḥ): each sound of `cu~` to its closest sound of `ku~`.
pub open spec fn cu_to_ku() -> Map<char, char> {
    sound_mapping("cu~"@, "ku~"@)
}

/// The mapping of 8.2.37 (ekāco baśo bhaṣ jhaṣantasya sdhvoḥ): each sound of `baS` to its
/// closest sound of `Baz`.
pub open spec fn bash_to_bhaz() -> Map<char, char> {
    sound_mapping("baS"@, "Baz"@)
}

/// The mapping of 8.2.39 (jhalāṃ jaśo 'nte): each sound of `Jal` to its closest sound of
/// `jaS`.
pub open spec fn jhal_to_jash() -> Map<char, char> {
    sound_mapping("Jal"@, "jaS"@)
}

/// The sounds of the pratyahara `Jaz`.
pub open spec fn jhaz() -> Set<char> {
    spec_s("Jaz"@)
}

/// The final sounds that 8.2.39 leaves to other rules: `c` (8.2.30), `S` (8.2.36), `s`
/// (8.2.66) and `h` (8.2.31).
pub open spec fn jash_exceptions() -> Set<char> {
    spec_s("c S s h"@)
}

proof fn lemma_1b_lists()
    ensures
        valid_sound_list("cu~"@),
        valid_sound_list("ku~"@),
        valid_sound_list("baS"@),
        valid_sound_list("Baz"@),
        valid_sound_list("Jaz"@),
        valid_sound_list("c S s h"@),
        filter_in(panini_order(), spec_s("ku~"@)).len() > 0,
        filter_in(panini_order(), spec_s("Baz"@)).len() > 0,
{
    reveal_strlit("cu~");
    reveal_strlit("ku~");
    reveal_strlit("baS");
    reveal_strlit("Baz");
    reveal_strlit("Jaz");
    reveal_strlit("c S s h");
    lemma_one_word("cu~"@);
    lemma_one_word("ku~"@);
    lemma_one_word("baS"@);
    lemma_one_word("Baz"@);
    lemma_one_word("Jaz"@);
    let ws = seq![seq!['c'], seq!['S'], seq!['s'], seq!['h']];
    assert(ws[0] == seq!['c']);
    assert(ws[1] == seq!['S']);
    assert(ws[2] == seq!['s']);
    assert(ws[3] == seq!['h']);
    assert(ws.drop_last() =~= seq![seq!['c'], seq!['S'], seq!['s']]);
    assert(ws.drop_last().drop_last() =~= seq![seq!['c'], seq!['S']]);
    assert(ws.drop_last().drop_last().drop_last() =~= seq![seq!['c']]);
    reveal_with_fuel(crate::sounds::joined_words, 5);
    assert(crate::sounds::joined_words(ws) =~= "c S s h"@);
    lemma_joined_words(ws);
    reveal_with_fuel(crate::sounds::sutra_with, 12);
    reveal_with_fuel(crate::sounds::sutra_ending_in, 4);
    reveal_with_fuel(crate::sounds::index_from, 4);
    assert(crate::sounds::sutra_with('b', 0) == 9);
    assert(crate::sounds::sutra_with('B', 0) == 7);
    assert(crate::sounds::sutra_with('J', 0) == 7);
    assert(crate::sounds::index_from(crate::sounds::shiva_sutras()[7].0, 'B', 0) == 1);
    assert(crate::sounds::sutra_ending_in('z', 7) == 8);
    assert(crate::sounds::sound_or_long_at(7, 1, 'B'));
    let bw = crate::sounds::words("Baz"@)[0];
    assert(bw == "Baz"@);
    assert(crate::sounds::word_sounds(bw).contains('B'));
    assert(spec_s("Baz"@).contains('B'));
    let kw = crate::sounds::words("ku~"@)[0];
    assert(kw == "ku~"@);
    assert(crate::sounds::ends_with_u_tilde(kw));
    assert(crate::sounds::spec_savarna('k')[0] == 'k');
    assert(crate::sounds::spec_savarna(kw[0]).contains('k'));
    assert(crate::sounds::word_sounds(kw).contains('k'));
    assert(spec_s("ku~"@).contains('k'));
    assert(panini_order()[16] == 'k');
    assert(panini_order()[39] == 'B');
    lemma_filter_in_nonempty(panini_order(), spec_s("ku~"@), 'k');
    lemma_filter_in_nonempty(panini_order(), spec_s("Baz"@), 'B');
}

/// Whether 8.2.30 applies to term `i` of `ts`: it ends in a sound of `cu~` before a sound of
/// `Jal` or at the end.
pub open spec fn cu_to_ku_applies(ts: Seq<Term>, i: int) -> bool {
    let t = ts[i].text@;
    t.len() > 0 && cu_to_ku().dom().contains(t.last()) && jhali_or_ante(ts, i)
}

/// Whether term `i` of `us` is term `i` of `ts` after 8.2.30 (coḥ kuḥ).
pub open spec fn cu_to_ku_done(ts: Seq<Term>, us: Seq<Term>, i: int) -> bool {
    let t = ts[i].text@;
    &&& same_but_text(ts[i], us[i])
    &&& us[i].text@ == if cu_to_ku_applies(ts, i) {
        replace_antya(t, seq![cu_to_ku()[t.last()]])
    } else {
        t
    }
}

/// Whether the term after term `i` of `ts` that has text begins with `s`, or is a pratyaya
/// that begins with `Dv`, or no term after it has text: the condition `sdhvoḥ` of 8.2.37.
pub open spec fn before_s_or_dhv(ts: Seq<Term>, i: int) -> bool {
    let n = next_nonempty(ts, i + 1);
    ||| n == -1
    ||| ts[n].text@[0] == 's'
    ||| ts[n].tagged(T::Pratyaya) && "Dv"@.len() <= ts[n].text@.len() && ts[n].text@.subrange(
        0,
        "Dv"@.len() as int,
    ) == "Dv"@
}

/// Whether 8.2.37 applies to term `i` of `ts`: it begins with a sound of `baS` and ends with
/// a sound of `Jaz`, before `s`, `Dv` or the end.
pub open spec fn bash_to_bhaz_applies(ts: Seq<Term>, i: int) -> bool {
    let t = ts[i].text@;
    &&& t.len() > 0
    &&& bash_to_bhaz().dom().contains(t[0])
    &&& jhaz().contains(t.last())
    &&& before_s_or_dhv(ts, i)
}

/// Whether term `i` of `us` is term `i` of `ts` after 8.2.37.
pub open spec fn bash_to_bhaz_done(ts: Seq<Term>, us: Seq<Term>, i: int) -> bool {
    let t = ts[i].text@;
    &&& same_but_text(ts[i], us[i])
    &&& us[i].text@ == if bash_to_bhaz_applies(ts, i) {
        crate::operations::replace_adi(t, seq![bash_to_bhaz()[t[0]]])
    } else {
        t
    }
}

/// Whether 8.2.39 applies to term `i` of `ts`: it ends in a sound of `Jal` other than the
/// exceptions, and no term after it has text.
pub open spec fn jhal_to_jash_applies(ts: Seq<Term>, i: int) -> bool {
    let t = ts[i].text@;
    &&& t.len() > 0
    &&& jhal_to_jash().dom().contains(t.last())
    &&& !jash_exceptions().contains(t.last())
    &&& next_nonempty(ts, i + 1) == -1
}

/// Whether term `i` of `us` is term `i` of `ts` after 8.2.39 (jhalāṃ jaśo 'nte).
pub open spec fn jhal_to_jash_done(ts: Seq<Term>, us: Seq<Term>, i: int) -> bool {
    let t = ts[i].text@;
    &&& same_but_text(ts[i], us[i])
    &&& us[i].text@ == if jhal_to_jash_applies(ts, i) {
        replace_antya(t, seq![jhal_to_jash()[t.last()]])
    } else {
        t
    }
}

/// Which rule of `per_term_1b` a pass applies.
enum Pass1b {
    CuToKu,
    BashToBhaz,
    JhalToJash,
}

spec fn pass_done(pass: Pass1b, ts: Seq<Term>, us: Seq<Term>, i: int) -> bool {
    match pass {
        Pass1b::CuToKu => cu_to_ku_done(ts, us, i),
        Pass1b::BashToBhaz => bash_to_bhaz_done(ts, us, i),
        Pass1b::JhalToJash => jhal_to_jash_done(ts, us, i),
    }
}

/// The sound sets and mappings of `per_term_1b`.
struct Tables1b {
    jhal: SoundSet,
    jhaz: SoundSet,
    exceptions: SoundSet,
    cu_ku: sounds::SoundMap,
    bash_bhaz: sounds::SoundMap,
    jhal_jash: sounds::SoundMap,
}

spec fn tables_ok(t: &Tables1b) -> bool {
    &&& t.jhal@ == jhal()
    &&& t.jhaz@ == jhaz()
    &&& t.exceptions@ == jash_exceptions()
    &&& t.cu_ku.wf() && t.cu_ku@ == cu_to_ku()
    &&& t.bash_bhaz.wf() && t.bash_bhaz@ == bash_to_bhaz()
    &&& t.jhal_jash.wf() && t.jhal_jash@ == jhal_to_jash()
}

fn is_pratyaya_dhv(t: &Term) -> (b: bool)
    ensures
        b == (t.tagged(T::Pratyaya) && "Dv"@.len() <= t.text@.len() && t.text@.subrange(
            0,
            "Dv"@.len() as int,
        ) == "Dv"@),
{
    t.has_tag(T::Pratyaya) && crate::strings::starts_with(t.text.as_str(), "Dv")
}

/// Applies the rule of `pass` to term `i`.
fn pass_at(p: &mut Prakriya, i: usize, pass: &Pass1b, tables: &Tables1b)
    requires
        i < old(p).terms_seq().len(),
        tables_ok(tables),
    ensures
        Prakriya::rewrote(*old(p), *final(p)),
        only_text_at(old(p).terms_seq(), final(p).terms_seq(), i as int),
        pass_done(*pass, old(p).terms_seq(), final(p).terms_seq(), i as int),
{
    proof {
        crate::prakriya::lemma_rewrote_refl(*p);
    }
    let next = next_with_text(p, i);
    let x = &p.terms()[i];
    match pass {
        Pass1b::CuToKu => {
            let jhali = match next {
                Some(j) => tables.jhal.contains_opt(p.terms()[j].adi()),
                None => true,
            };
            if jhali {
                if let Some(c) = x.antya() {
                    if let Some(sub) = tables.cu_ku.get(c) {
                        let sub = crate::strings::char_string(sub);
                        term_antya(p, "8.2.30", i, sub.as_str());
                    }
                }
            }
        },
        Pass1b::BashToBhaz => {
            let if_y = match next {
                Some(j) => p.terms()[j].has_adi('s') || is_pratyaya_dhv(&p.terms()[j]),
                None => true,
            };
            if if_y && tables.jhaz.contains_opt(x.antya()) {
                if let Some(c) = x.adi() {
                    if let Some(sub) = tables.bash_bhaz.get(c) {
                        let sub = crate::strings::char_string(sub);
                        crate::operators::term_adi(p, "8.2.37", i, sub.as_str());
                    }
                }
            }
        },
        Pass1b::JhalToJash => {
            if next.is_none() && !tables.exceptions.contains_opt(x.antya()) {
                if let Some(c) = x.antya() {
                    if let Some(sub) = tables.jhal_jash.get(c) {
                        let sub = crate::strings::char_string(sub);
                        term_antya(p, "8.2.39", i, sub.as_str());
                    }
                }
            }
        },
    }
}

/// Applies the rule of `pass` to each term in turn.
fn run_pass(p: &mut Prakriya, pass: Pass1b, tables: &Tables1b)
    requires
        tables_ok(tables),
    ensures
        Prakriya::rewrote(*old(p), *final(p)),
        final(p).terms_seq().len() == old(p).terms_seq().len(),
        forall|i: int|
            0 <= i < old(p).terms_seq().len() ==> #[trigger] pass_done(
                pass,
                old(p).terms_seq(),
                final(p).terms_seq(),
                i,
            ),
{
    proof {
        crate::prakriya::lemma_rewrote_refl(*p);
    }
    let ghost ts = p.terms_seq();
    let n = p.terms().len();
    let mut i: usize = 0;
    while i < n
        invariant
            i <= n,
            n == ts.len(),
            ts == old(p).terms_seq(),
            tables_ok(tables),
            p.terms_seq().len() == n,
            Prakriya::rewrote(*old(p), *p),
            forall|k: int| 0 <= k < i ==> #[trigger] pass_done(pass, ts, p.terms_seq(), k),
            forall|k: int| i <= k < n ==> #[trigger] p.terms_seq()[k] == ts[k],
        decreases n - i,
    {
        let ghost before = *p;
        pass_at(p, i, &pass, tables);
        proof {
            crate::prakriya::lemma_rewrote_trans(*old(p), before, *p);
            let bs = before.terms_seq();
            assert forall|k: int| i + 1 <= k < n implies (#[trigger] bs[k]).text@ == ts[k].text@ by {
                assert(bs[k] == ts[k]);
            }
            lemma_next_nonempty_suffix(bs, ts, i + 1);
            assert(bs[i as int] == ts[i as int]);
            let m = next_nonempty(ts, i + 1);
            lemma_next_nonempty_range(ts, i + 1);
            if m != -1 {
                assert(bs[m] == ts[m]);
            }
            assert(pass_done(pass, ts, p.terms_seq(), i as int));
            assert forall|k: int| 0 <= k < i + 1 implies #[trigger] pass_done(
                pass,
                ts,
                p.terms_seq(),
                k,
            ) by {
                if k < i {
                    assert(pass_done(pass, ts, bs, k));
                    assert(p.terms_seq()[k] == bs[k]);
                }
            }
            assert forall|k: int| i + 1 <= k < n implies #[trigger] p.terms_seq()[k] == ts[k] by {
                assert(p.terms_seq()[k] == bs[k]);
            }
        }
        i = i + 1;
    }
}

/// Whether the terms `ts` become `a` by 8.2.30, `a` become `b` by 8.2.37 and `b` become `us`
/// by 8.2.39, term by term.
pub open spec fn passes_1b(ts: Seq<Term>, a: Seq<Term>, b: Seq<Term>, us: Seq<Term>) -> bool {
    &&& a.len() == ts.len()
    &&& b.len() == ts.len()
    &&& us.len() == ts.len()
    &&& forall|i: int| 0 <= i < ts.len() ==> #[trigger] cu_to_ku_done(ts, a, i)
    &&& forall|i: int| 0 <= i < ts.len() ==> #[trigger] bash_to_bhaz_done(a, b, i)
    &&& forall|i: int| 0 <= i < ts.len() ==> #[trigger] jhal_to_jash_done(b, us, i)
}

/// Applies, term by term, 8.2.30 (coḥ kuḥ), then 8.2.37 (ekāco baśo bhaṣ jhaṣantasya sdhvoḥ),
/// then 8.2.39 (jhalāṃ jaśo 'nte). Each pass sees the terms that the one before it left.
pub fn per_term_1b(p: &mut Prakriya) -> (r: Option<()>)
    ensures
        r is Some,
        Prakriya::rewrote(*old(p), *final(p)),
        final(p).terms_seq().len() == old(p).terms_seq().len(),
        exists|a: Seq<Term>, b: Seq<Term>|
            #[trigger] passes_1b(old(p).terms_seq(), a, b, final(p).terms_seq()),
{
    proof {
        lemma_jhal_lists();
        lemma_1b_lists();
    }
    let tables = Tables1b {
        jhal: sounds::s("Jal"),
        jhaz: sounds::s("Jaz"),
        exceptions: sounds::s("c S s h"),
        cu_ku: sounds::map_sounds("cu~", "ku~"),
        bash_bhaz: sounds::map_sounds("baS", "Baz"),
        jhal_jash: sounds::map_sounds("Jal", "jaS"),
    };
    let ghost p0 = *p;
    run_pass(p, Pass1b::CuToKu, &tables);
    let ghost p1 = *p;
    run_pass(p, Pass1b::BashToBhaz, &tables);
    let ghost p2 = *p;
    run_pass(p, Pass1b::JhalToJash, &tables);
    proof {
        crate::prakriya::lemma_rewrote_trans(p0, p1, p2);
        crate::prakriya::lemma_rewrote_trans(p0, p2, *p);
        let a = p1.terms_seq();
        let b = p2.terms_seq();
        assert forall|i: int| 0 <= i < a.len() implies #[trigger] cu_to_ku_done(p0.terms_seq(), a, i) by {
            assert(pass_done(Pass1b::CuToKu, p0.terms_seq(), a, i));
        }
        assert forall|i: int| 0 <= i < a.len() implies #[trigger] bash_to_bhaz_done(a, b, i) by {
            assert(pass_done(Pass1b::BashToBhaz, a, b, i));
        }
        assert forall|i: int| 0 <= i < a.len() implies #[trigger] jhal_to_jash_done(b, p.terms_seq(), i) by {
            assert(pass_done(Pass1b::JhalToJash, b, p.terms_seq(), i));
        }
        assert(passes_1b(p0.terms_seq(), a, b, p.terms_seq()));
    }
    Some(())
}

/// The index of the last term at `j` or before whose text is not empty; -1 where there is
/// none.
pub open spec fn prev_nonempty(ts: Seq<Term>, j: int) -> int
    decreases j + 1,
{
    if j < 0 || j >= ts.len() {
        -1
    } else if ts[j].text@.len() > 0 {
        j
    } else {
        prev_nonempty(ts, j - 1)
    }
}

proof fn lemma_prev_nonempty_range(ts: Seq<Term>, j: int)
    requires
        j < ts.len(),
    ensures
        prev_nonempty(ts, j) == -1 || (0 <= prev_nonempty(ts, j) <= j
            && ts[prev_nonempty(ts, j)].text@.len() > 0 && forall|k: int|
            prev_nonempty(ts, j) < k <= j ==> (#[trigger] ts[k]).text@.len() == 0),
        prev_nonempty(ts, j) == -1 ==> forall|k: int| 0 <= k <= j ==> (#[trigger] ts[k]).text@.len() == 0,
    decreases j + 1,
{
    if 0 <= j && ts[j].text@.len() == 0 {
        lemma_prev_nonempty_range(ts, j - 1);
    }
}

proof fn lemma_next_nonempty_between(ts: Seq<Term>, j: int)
    requires
        0 <= j,
    ensures
        forall|k: int|
            j <= k < ts.len() && (next_nonempty(ts, j) == -1 || k < next_nonempty(ts, j)) ==> (
            #[trigger] ts[k]).text@.len() == 0,
    decreases ts.len() - j,
{
    if j < ts.len() && ts[j].text@.len() == 0 {
        lemma_next_nonempty_between(ts, j + 1);
    }
}

/// Terms whose texts have the same lengths have their texts at the same places.
proof fn lemma_next_nonempty_lens(ts: Seq<Term>, us: Seq<Term>, j: int)
    requires
        ts.len() == us.len(),
        forall|k: int| 0 <= k < ts.len() ==> (#[trigger] ts[k]).text@.len() == us[k].text@.len(),
    ensures
        next_nonempty(ts, j) == next_nonempty(us, j),
    decreases ts.len() - j,
{
    if 0 <= j < ts.len() {
        lemma_next_nonempty_lens(ts, us, j + 1);
    }
}

proof fn lemma_prev_walk(ts: Seq<Term>, i: int, j: int)
    requires
        0 <= i <= j < ts.len(),
        ts[i].text@.len() > 0,
        forall|k: int| i < k <= j ==> (#[trigger] ts[k]).text@.len() == 0,
    ensures
        prev_nonempty(ts, j) == i,
    decreases j - i,
{
    if j > i {
        lemma_prev_walk(ts, i, j - 1);
    }
}

proof fn lemma_prev_walk_empty(ts: Seq<Term>, i: int, j: int)
    requires
        0 <= i <= j < ts.len(),
        forall|k: int| i <= k <= j ==> (#[trigger] ts[k]).text@.len() == 0,
    ensures
        prev_nonempty(ts, j) == prev_nonempty(ts, i - 1),
    decreases j - i,
{
    if j > i {
        lemma_prev_walk_empty(ts, i, j - 1);
    }
}

proof fn lemma_prev_is(ts: Seq<Term>, k: int, i: int)
    requires
        0 <= i < k < ts.len(),
        prev_nonempty(ts, k - 1) == i,
        ts[k].text@.len() > 0,
    ensures
        next_nonempty(ts, i + 1) == k,
{
    lemma_prev_nonempty_range(ts, k - 1);
    lemma_next_nonempty_found(ts, i + 1, k);
}

/// The sounds of `iR2` and `ku~`, after which 8.3.57 - 8.3.59 make `s` murdhanya.
pub open spec fn in_ku() -> Set<char> {
    spec_s("iR2 ku~"@)
}

/// Whether `t` is a pratyaya, an agama or a substitute: the condition `ādeśapratyayayoḥ` of
/// 8.3.59.
pub open spec fn adesha_pratyaya(t: Term) -> bool {
    t.tagged(T::Pratyaya) || t.tagged(T::FlagAdeshadi) || t.tagged(T::Agama)
}

/// A rule that changes the first sound of the next term with text after a term that meets a
/// condition.
pub enum NextPass {
    /// 8.2.40 (jhaṣas tathor dho 'dhaḥ): `t` or `T` becomes `D` after a dhatu that ends in a
    /// sound of `Jaz`.
    JhashToDha,
    /// 8.3.59 (ādeśapratyayayoḥ): the `s` of a pratyaya or substitute becomes `z` after a
    /// sound of `iR2` or `ku~`.
    SaToSha,
}

/// The sounds that the term before must end in.
pub open spec fn prev_sounds(pass: NextPass) -> Set<char> {
    match pass {
        NextPass::JhashToDha => jhaz(),
        NextPass::SaToSha => in_ku(),
    }
}

/// Whether the term `t`, with the text `text`, can cause the change of `pass`.
pub open spec fn prev_ok(pass: NextPass, t: Term, text: Seq<char>) -> bool {
    &&& text.len() > 0
    &&& prev_sounds(pass).contains(text.last())
    &&& match pass {
        NextPass::JhashToDha => t.tagged(T::Dhatu) && !t.u_is("quDA\\Y"@),
        NextPass::SaToSha => true,
    }
}

/// Whether the term `t` can undergo the change of `pass`.
pub open spec fn next_ok(pass: NextPass, t: Term) -> bool {
    let y = t.text@;
    &&& y.len() > 0
    &&& match pass {
        NextPass::JhashToDha => y[0] == 't' || y[0] == 'T',
        NextPass::SaToSha => y[0] == 's' && adesha_pratyaya(t),
    }
}

/// The sound that the change of `pass` puts first.
pub open spec fn next_sub(pass: NextPass) -> Seq<char> {
    match pass {
        NextPass::JhashToDha => "D"@,
        NextPass::SaToSha => "z"@,
    }
}

/// The text of term `k` of `ts` after the change of `pass`, where the term that can cause it is
/// the term with text before it, as the same change has left that term.
pub open spec fn next_text(pass: NextPass, ts: Seq<Term>, k: int) -> Seq<char>
    decreases k,
{
    let m = prev_nonempty(ts, k - 1);
    if 0 <= m < k && next_ok(pass, ts[k]) && prev_ok(pass, ts[m], next_text(pass, ts, m)) {
        crate::operations::replace_adi(ts[k].text@, next_sub(pass))
    } else {
        ts[k].text@
    }
}

/// The text of term `k` of `ts` after 8.2.40 (jhaṣas tathor dho 'dhaḥ), which turns a first `t`
/// or `T` into `D` after a dhatu that ends in a sound of `Jaz`.
pub open spec fn dha_text(ts: Seq<Term>, k: int) -> Seq<char> {
    next_text(NextPass::JhashToDha, ts, k)
}

proof fn lemma_next_text_len(pass: NextPass, ts: Seq<Term>, k: int)
    ensures
        next_text(pass, ts, k).len() == ts[k].text@.len(),
{
    reveal_strlit("D");
    reveal_strlit("z");
}

fn prev_ok_exec(pass: &NextPass, t: &Term, sounds: &SoundSet) -> (b: bool)
    requires
        sounds@ == prev_sounds(*pass),
    ensures
        b == prev_ok(*pass, *t, t.text@),
{
    sounds.contains_opt(t.antya()) && match pass {
        NextPass::JhashToDha => t.has_tag(T::Dhatu) && !t.has_u("quDA\\Y"),
        NextPass::SaToSha => true,
    }
}

fn next_ok_exec(pass: &NextPass, t: &Term) -> (b: bool)
    ensures
        b == next_ok(*pass, *t),
{
    match pass {
        NextPass::JhashToDha => t.has_adi('t') || t.has_adi('T'),
        NextPass::SaToSha => t.has_adi('s') && t.has_tag_in(
            &[T::Pratyaya, T::FlagAdeshadi, T::Agama],
        ),
    }
}

/// Applies the change of `pass` to each term with text and the next term with text, in turn.
/// Returns `None` where it stops because no term after the current one has text.
pub(crate) fn xy_rule_next(p: &mut Prakriya, pass: NextPass, sounds: &SoundSet) -> (r: Option<()>)
    requires
        old(p).terms_seq().len() >= 1,
        sounds@ == prev_sounds(pass),
    ensures
        r is None <==> old(p).terms_seq().len() >= 2 && old(p).terms_seq().last().text@.len()
            == 0,
        Prakriya::rewrote(*old(p), *final(p)),
        final(p).terms_seq().len() == old(p).terms_seq().len(),
        forall|k: int|
            0 <= k < old(p).terms_seq().len() ==> same_but_text(
                old(p).terms_seq()[k],
                #[trigger] final(p).terms_seq()[k],
            ) && final(p).terms_seq()[k].text@ == next_text(pass, old(p).terms_seq(), k),
{
    proof {
        crate::prakriya::lemma_rewrote_refl(*p);
        reveal_strlit("D");
        reveal_strlit("z");
    }
    let ghost ts = p.terms_seq();
    let n = p.terms().len();
    let mut i: usize = 0;
    while i < n - 1
        invariant
            1 <= n,
            i <= n - 1,
            n == ts.len(),
            ts == old(p).terms_seq(),
            sounds@ == prev_sounds(pass),
            p.terms_seq().len() == n,
            Prakriya::rewrote(*old(p), *p),
            forall|k: int| 0 <= k < n ==> same_but_text(ts[k], #[trigger] p.terms_seq()[k]),
            forall|k: int|
                0 <= k < n ==> (#[trigger] p.terms_seq()[k]).text@ == if prev_nonempty(ts, k - 1)
                    < i {
                    next_text(pass, ts, k)
                } else {
                    ts[k].text@
                },
            i >= 1 ==> exists|k: int| i <= k < n && (#[trigger] ts[k]).text@.len() > 0,
        decreases n - i,
    {
        let ghost cur = p.terms_seq();
        proof {
            assert forall|k: int| 0 <= k < n implies (#[trigger] ts[k]).text@.len() == cur[k].text@.len() by {
                lemma_next_text_len(pass, ts, k);
            }
            lemma_next_nonempty_lens(ts, cur, i + 1);
            lemma_next_nonempty_range(ts, i + 1);
            lemma_next_nonempty_between(ts, i + 1);
        }
        let j = match next_with_text(p, i) {
            Some(j) => j,
            None => {
                proof {
                    assert forall|k: int| 0 <= k < n implies (#[trigger] p.terms_seq()[k]).text@
                        == next_text(pass, ts, k) by {
                        lemma_prev_nonempty_range(ts, k - 1);
                        if prev_nonempty(ts, k - 1) >= i {
                            assert(k > i);
                            assert(ts[k].text@.len() == 0);
                        }
                    }
                    assert(ts.last() == ts[n - 1]);
                    assert(ts[n - 1].text@.len() == 0);
                }
                return None;
            },
        };
        let ghost x_text = cur[i as int].text@;
        proof {
            lemma_prev_nonempty_range(ts, i - 1);
            assert(x_text == next_text(pass, ts, i as int));
            if ts[i as int].text@.len() > 0 {
                lemma_prev_nonempty_range(ts, j - 1);
                assert(prev_nonempty(ts, j - 1) == i) by {
                    assert forall|k: int| i < k < j implies (#[trigger] ts[k]).text@.len() == 0 by {}
                    lemma_prev_walk(ts, i as int, j - 1);
                }
                assert(cur[j as int].text@ == ts[j as int].text@);
            } else {
                lemma_prev_nonempty_range(ts, j - 1);
                lemma_prev_walk_empty(ts, i as int, j - 1);
                lemma_prev_nonempty_range(ts, i - 1);
            }
        }
        let ghost before = *p;
        let x = &p.terms()[i];
        let y = &p.terms()[j];
        if prev_ok_exec(&pass, x, sounds) && next_ok_exec(&pass, y) {
            match pass {
                NextPass::JhashToDha => {
                    crate::operators::term_adi(p, "8.2.40", j, "D");
                },
                NextPass::SaToSha => {
                    crate::operators::term_adi(p, "8.3.59", j, "z");
                },
            }
            proof {
                crate::prakriya::lemma_rewrote_trans(*old(p), before, *p);
            }
        }
        proof {
            assert forall|k: int| 0 <= k < n implies (#[trigger] p.terms_seq()[k]).text@ == if prev_nonempty(ts, k - 1)
                < i + 1 {
                next_text(pass, ts, k)
            } else {
                ts[k].text@
            } by {
                lemma_prev_nonempty_range(ts, k - 1);
                if prev_nonempty(ts, k - 1) == i && k != j {
                    if ts[k].text@.len() > 0 {
                        lemma_prev_is(ts, k, i as int);
                    }
                }
            }
            assert(i + 1 >= 1 ==> exists|k: int| i + 1 <= k < n && (#[trigger] ts[k]).text@.len() > 0) by {
                assert(ts[j as int].text@.len() > 0);
            }
        }
        i = i + 1;
    }
    proof {
        assert forall|k: int| 0 <= k < n implies (#[trigger] p.terms_seq()[k]).text@ == next_text(pass, ts, k) by {
            lemma_prev_nonempty_range(ts, k - 1);
        }
        if n >= 2 {
            let k = choose|k: int| n - 1 <= k < n && (#[trigger] ts[k]).text@.len() > 0;
            assert(k == n - 1);
            assert(ts.last() == ts[n - 1]);
        }
    }
    Some(())
}

/// Whether 8.2.41 (ṣaḍhoḥ kaḥ si) applies to term `i` of `ts`: it ends in `z` or `Q`, and the
/// next term with text begins with `s`.
pub open spec fn zq_before_s(ts: Seq<Term>, i: int) -> bool {
    let n = next_nonempty(ts, i + 1);
    let t = ts[i].text@;
    &&& n != -1
    &&& t.len() > 0
    &&& (t.last() == 'z' || t.last() == 'Q')
    &&& ts[n].text@[0] == 's'
}

/// Whether 8.2.65 (mo no dhātoḥ) applies to term `i` of `ts`: it is a dhatu that ends in `m`,
/// and the next term with text begins with `m` or `v`.
pub open spec fn m_before_mv(ts: Seq<Term>, i: int) -> bool {
    let n = next_nonempty(ts, i + 1);
    let t = ts[i].text@;
    &&& n != -1
    &&& ts[i].tagged(T::Dhatu)
    &&& t.len() > 0
    &&& t.last() == 'm'
    &&& (ts[n].text@[0] == 'm' || ts[n].text@[0] == 'v')
}

/// Whether term `i` of `us` is term `i` of `ts` after 8.2.41.
pub open spec fn zq_to_k_done(ts: Seq<Term>, us: Seq<Term>, i: int) -> bool {
    &&& same_but_text(ts[i], us[i])
    &&& us[i].text@ == if zq_before_s(ts, i) {
        replace_antya(ts[i].text@, "k"@)
    } else {
        ts[i].text@
    }
}

/// Whether term `i` of `us` is term `i` of `ts` after 8.2.65.
pub open spec fn m_to_n_done(ts: Seq<Term>, us: Seq<Term>, i: int) -> bool {
    &&& same_but_text(ts[i], us[i])
    &&& us[i].text@ == if m_before_mv(ts, i) {
        replace_antya(ts[i].text@, "n"@)
    } else {
        ts[i].text@
    }
}

/// A rule that changes a term with text where the next term with text meets a condition.
pub(crate) enum PassXy {
    /// 8.2.41 (ṣaḍhoḥ kaḥ si).
    ZqToK,
    /// 8.2.65 (mo no dhātoḥ).
    MToN,
    /// 8.3.60 (śāsivasighasīnāṃ ca).
    SasToSha,
}

pub(crate) open spec fn xy_done(pass: PassXy, ts: Seq<Term>, us: Seq<Term>, i: int) -> bool {
    match pass {
        PassXy::ZqToK => zq_to_k_done(ts, us, i),
        PassXy::MToN => m_to_n_done(ts, us, i),
        PassXy::SasToSha => crate::tripadi::pada_8_3::sas_to_sha_done(ts, us, i),
    }
}

/// Applies the rule of `pass` to each term with text and the next term with text, in turn.
/// Returns `None` where it stops because no term after the current one has text.
pub(crate) fn xy_rule(p: &mut Prakriya, pass: PassXy, in_ku_set: &SoundSet) -> (r: Option<()>)
    requires
        old(p).terms_seq().len() >= 1,
        in_ku_set@ == in_ku(),
    ensures
        r is None <==> old(p).terms_seq().len() >= 2 && old(p).terms_seq().last().text@.len()
            == 0,
        Prakriya::rewrote(*old(p), *final(p)),
        final(p).terms_seq().len() == old(p).terms_seq().len(),
        forall|k: int|
            0 <= k < old(p).terms_seq().len() ==> #[trigger] xy_done(
                pass,
                old(p).terms_seq(),
                final(p).terms_seq(),
                k,
            ),
{
    proof {
        crate::prakriya::lemma_rewrote_refl(*p);
    }
    let ghost ts = p.terms_seq();
    let n = p.terms().len();
    let mut i: usize = 0;
    while i < n - 1
        invariant
            1 <= n,
            i <= n - 1,
            n == ts.len(),
            ts == old(p).terms_seq(),
            in_ku_set@ == in_ku(),
            p.terms_seq().len() == n,
            Prakriya::rewrote(*old(p), *p),
            forall|k: int| 0 <= k < i ==> #[trigger] xy_done(pass, ts, p.terms_seq(), k),
            forall|k: int| i <= k < n ==> #[trigger] p.terms_seq()[k] == ts[k],
            i >= 1 ==> exists|k: int| i <= k < n && (#[trigger] ts[k]).text@.len() > 0,
        decreases n - i,
    {
        let ghost before = *p;
        let ghost bs = before.terms_seq();
        proof {
            assert forall|k: int| i + 1 <= k < n implies (#[trigger] bs[k]).text@ == ts[k].text@ by {
                assert(bs[k] == ts[k]);
            }
            lemma_next_nonempty_suffix(bs, ts, i + 1);
            lemma_next_nonempty_range(ts, i + 1);
            lemma_next_nonempty_between(ts, i + 1);
        }
        let j = match next_with_text(p, i) {
            Some(j) => j,
            None => {
                proof {
                    assert forall|k: int| 0 <= k < n implies #[trigger] xy_done(
                        pass,
                        ts,
                        p.terms_seq(),
                        k,
                    ) by {
                        if k >= i {
                            assert(p.terms_seq()[k] == ts[k]);
                            lemma_next_nonempty_none(ts, k + 1);
                        }
                    }
                    assert(ts.last() == ts[n - 1]);
                }
                return None;
            },
        };
        proof {
            assert(bs[j as int] == ts[j as int]);
            assert(bs[i as int] == ts[i as int]);
        }
        let x = &p.terms()[i];
        let y = &p.terms()[j];
        match pass {
            PassXy::ZqToK => {
                if (x.has_antya('z') || x.has_antya('Q')) && y.has_adi('s') {
                    term_antya(p, "8.2.40", i, "k");
                }
            },
            PassXy::MToN => {
                if x.has_tag(T::Dhatu) && x.has_antya('m') && (y.has_adi('m') || y.has_adi('v')) {
                    term_antya(p, "8.2.65", i, "n");
                }
            },
            PassXy::SasToSha => {
                if x.has_u_in(&["va\\sa~", "SAsu~", "Gasx~"]) && ((in_ku_set.contains_opt(
                    x.upadha(),
                ) && x.has_antya('s')) || x.has_text("s")) {
                    proof {
                        reveal_strlit("s");
                        reveal_strlit("z");
                    }
                    if x.has_text("s") {
                        assert(replace_antya("s"@, "z"@) =~= "z"@);
                        crate::operators::term_text(p, "8.3.60", i, "z");
                    } else {
                        term_antya(p, "8.3.60", i, "z");
                    }
                }
            },
        }
        proof {
            if *p != before {
                crate::prakriya::lemma_rewrote_trans(*old(p), before, *p);
            }
            assert(xy_done(pass, ts, p.terms_seq(), i as int));
            assert forall|k: int| 0 <= k < i + 1 implies #[trigger] xy_done(
                pass,
                ts,
                p.terms_seq(),
                k,
            ) by {
                if k < i {
                    assert(xy_done(pass, ts, bs, k));
                    assert(p.terms_seq()[k] == bs[k]);
                }
            }
            assert forall|k: int| i + 1 <= k < n implies #[trigger] p.terms_seq()[k] == ts[k] by {
                assert(p.terms_seq()[k] == bs[k]);
            }
            assert(ts[j as int].text@.len() > 0);
        }
        i = i + 1;
    }
    proof {
        assert forall|k: int| 0 <= k < n implies #[trigger] xy_done(pass, ts, p.terms_seq(), k) by {
            if k == n - 1 {
                assert(p.terms_seq()[k] == ts[k]);
                lemma_next_nonempty_none(ts, k + 1);
            }
        }
        if n >= 2 {
            let k = choose|k: int| n - 1 <= k < n && (#[trigger] ts[k]).text@.len() > 0;
            assert(k == n - 1);
            assert(ts.last() == ts[n - 1]);
        }
    }
    Some(())
}

/// Whether the terms `ts` become `a` by 8.2.40, `a` become `b` by 8.2.41 and `b` become `us` by
/// 8.2.65.
pub open spec fn passes_1c(ts: Seq<Term>, a: Seq<Term>, b: Seq<Term>, us: Seq<Term>) -> bool {
    &&& a.len() == ts.len()
    &&& b.len() == ts.len()
    &&& us.len() == ts.len()
    &&& forall|k: int|
        0 <= k < ts.len() ==> same_but_text(ts[k], #[trigger] a[k]) && a[k].text@ == dha_text(
            ts,
            k,
        )
    &&& forall|k: int| 0 <= k < ts.len() ==> #[trigger] zq_to_k_done(a, b, k)
    &&& forall|k: int| 0 <= k < ts.len() ==> #[trigger] m_to_n_done(b, us, k)
}

/// Applies, to each term with text and the next term with text, 8.2.40 (jhaṣas tathor dho
/// 'dhaḥ), then 8.2.41 (ṣaḍhoḥ kaḥ si), then 8.2.65 (mo no dhātoḥ).
pub fn per_term_1c(p: &mut Prakriya) -> (r: Option<()>)
    requires
        old(p).terms_seq().len() >= 1,
    ensures
        r is Some,
        Prakriya::rewrote(*old(p), *final(p)),
        final(p).terms_seq().len() == old(p).terms_seq().len(),
        exists|a: Seq<Term>, b: Seq<Term>|
            #[trigger] passes_1c(old(p).terms_seq(), a, b, final(p).terms_seq()),
{
    proof {
        lemma_1b_lists();
        crate::tripadi::pada_8_3::lemma_in_ku();
    }
    let jhaz_set = sounds::s("Jaz");
    let in_ku_set = sounds::s("iR2 ku~");
    let ghost p0 = *p;
    xy_rule_next(p, NextPass::JhashToDha, &jhaz_set);
    let ghost p1 = *p;
    xy_rule(p, PassXy::ZqToK, &in_ku_set);
    let ghost p2 = *p;
    xy_rule(p, PassXy::MToN, &in_ku_set);
    proof {
        crate::prakriya::lemma_rewrote_trans(p0, p1, p2);
        crate::prakriya::lemma_rewrote_trans(p0, p2, *p);
        let a = p1.terms_seq();
        let b = p2.terms_seq();
        assert forall|k: int| 0 <= k < a.len() implies #[trigger] zq_to_k_done(a, b, k) by {
            assert(xy_done(PassXy::ZqToK, a, b, k));
        }
        assert forall|k: int| 0 <= k < a.len() implies #[trigger] m_to_n_done(b, p.terms_seq(), k) by {
            assert(xy_done(PassXy::MToN, b, p.terms_seq(), k));
        }
        assert(passes_1c(p0.terms_seq(), a, b, p.terms_seq()));
    }
    Some(())
}

/// Whether `t` ends in `c`.
pub open spec fn ends_in(t: Seq<char>, c: char) -> bool {
    t.len() > 0 && t.last() == c
}

/// Whether `us` are the terms `ts` after 8.2.73 - 8.2.75, which change the final `s` or `d`
/// of the next-to-last term before a last `tip` or `sip` that has no text.
pub open spec fn final_r_stage1(choices: Seq<RuleChoice>, ts: Seq<Term>, us: Seq<Term>) -> bool {
    let n = ts.len();
    if n >= 2 && ends_in(ts[n - 2].text@, 's') && ts[n - 1].text@.len() == 0 && ts[n - 1].u_is(
        "tip"@,
    ) {
        retexted(ts, us, n - 2, replace_antya(ts[n - 2].text@, "d"@))
    } else if n >= 2 && (ends_in(ts[n - 2].text@, 's') || ends_in(ts[n - 2].text@, 'd'))
        && ts[n - 1].text@.len() == 0 && ts[n - 1].u_is("sip"@) {
        let code = if ends_in(ts[n - 2].text@, 's') {
            "8.2.74"@
        } else {
            "8.2.75"@
        };
        if allows(choices, code) {
            retexted(ts, us, n - 2, replace_antya(ts[n - 2].text@, "ru~"@))
        } else {
            us == ts
        }
    } else {
        us == ts
    }
}

/// Whether `us` are the terms `ts` after 8.2.66 (sasajuṣo ruḥ): the last term with text, where
/// it ends in `s`, ends in `ru~` instead.
pub open spec fn final_r_stage2(ts: Seq<Term>, us: Seq<Term>) -> bool {
    let l = prev_nonempty(ts, ts.len() - 1);
    if l != -1 && ends_in(ts[l].text@, 's') {
        retexted(ts, us, l, replace_antya(ts[l].text@, "ru~"@))
    } else {
        us == ts
    }
}

/// Whether `us` are the terms `ts` after `try_add_final_r`, by way of the terms `a`.
pub open spec fn final_r_done(choices: Seq<RuleChoice>, ts: Seq<Term>, a: Seq<Term>, us: Seq<Term>) -> bool {
    final_r_stage1(choices, ts, a) && final_r_stage2(a, us)
}

/// Adds `ru~` (or `d`) for a final `s` or `d`: 8.2.73 - 8.2.75 before a last `tip` or `sip`
/// without text, then 8.2.66 (sasajuṣo ruḥ) on the last term with text. Returns `None` where
/// no term has text.
pub fn try_add_final_r(p: &mut Prakriya) -> (r: Option<()>)
    requires
        old(p).terms_seq().len() >= 1,
    ensures
        r is None <==> prev_nonempty(old(p).terms_seq(), old(p).terms_seq().len() - 1) == -1,
        Prakriya::revised(*old(p), *final(p)),
        exists|a: Seq<Term>|
            #[trigger] final_r_done(
                old(p).cfg().rule_choices@,
                old(p).terms_seq(),
                a,
                final(p).terms_seq(),
            ),
{
    proof {
        crate::prakriya::lemma_rewrote_refl(*p);
        crate::prakriya::lemma_rewrote_revised(*p, *p);
        reveal_strlit("ru~");
        reveal_strlit("d");
    }
    let ghost ts = p.terms_seq();
    let ghost choices = p.cfg().rule_choices@;
    // Exception to general rule 8.2.66 below.
    let n = p.terms().len();
    let mut i: usize = 0;
    while i < n - 1
        invariant
            1 <= n,
            i <= n - 1,
            n == ts.len(),
            ts == old(p).terms_seq(),
            choices == old(p).cfg().rule_choices@,
            Prakriya::revised(*old(p), *p),
            i + 2 <= n ==> *p == *old(p),
            i == n - 1 ==> final_r_stage1(choices, ts, p.terms_seq()),
        decreases n - i,
    {
        let ghost before = *p;
        let x = &p.terms()[i];
        let y = &p.terms()[i + 1];
        let is_last = i + 2 == n;
        if x.has_antya('s') && crate::filters::empty(y) && y.has_u("tip") && is_last {
            term_antya(p, "8.2.73", i, "d");
            proof {
                crate::prakriya::lemma_rewrote_revised(before, *p);
            }
        } else if (x.has_antya('s') || x.has_antya('d')) && crate::filters::empty(y) && y.has_u(
            "sip",
        ) && is_last {
            if x.has_antya('s') {
                term_antya_optional(p, "8.2.74", i, "ru~");
            } else {
                term_antya_optional(p, "8.2.75", i, "ru~");
            }
        }
        proof {
            if i + 2 == n {
                assert(before == *old(p));
                assert(final_r_stage1(choices, ts, p.terms_seq()));
            }
            crate::prakriya::lemma_revised_trans(*old(p), before, *p);
        }
        i = i + 1;
    }
    proof {
        if n == 1 {
            assert(final_r_stage1(choices, ts, p.terms_seq()));
        }
    }
    let ghost p1 = *p;
    let ghost a = p1.terms_seq();
    proof {
        assert(a.len() == n);
        assert forall|k: int| 0 <= k < n implies ((#[trigger] a[k]).text@.len() == 0) == (
        ts[k].text@.len() == 0) by {
            if a[k] != ts[k] {
                assert(k == n - 2);
                assert(ts[k].text@.len() > 0);
            }
        }
        lemma_prev_nonempty_lens(ts, a, n - 1);
        lemma_prev_nonempty_range(a, n - 1);
    }
    let l = match p.find_last_where(not_empty) {
        Some(l) => l,
        None => {
            proof {
                assert forall|k: int| 0 <= k < n implies (#[trigger] a[k]).text@.len() == 0 by {
                    assert(call_ensures(not_empty, (&a[k],), false));
                }
                lemma_prev_all_empty(a, n - 1);
                assert(final_r_done(choices, ts, a, p.terms_seq()));
            }
            return None;
        },
    };
    proof {
        assert forall|k: int| l < k <= n - 1 implies (#[trigger] a[k]).text@.len() == 0 by {
            assert(call_ensures(not_empty, (&a[k],), false));
        }
        assert(call_ensures(not_empty, (&a[l as int],), true));
        lemma_prev_walk(a, l as int, n - 1);
    }
    if p.terms()[l].has_antya('s') {
        term_antya(p, "8.2.66", l, "ru~");
        proof {
            crate::prakriya::lemma_rewrote_revised(p1, *p);
            crate::prakriya::lemma_revised_trans(*old(p), p1, *p);
        }
    }
    proof {
        assert(final_r_done(choices, ts, a, p.terms_seq()));
    }
    Some(())
}

proof fn lemma_prev_all_empty(ts: Seq<Term>, j: int)
    requires
        j < ts.len(),
        forall|k: int| 0 <= k <= j ==> (#[trigger] ts[k]).text@.len() == 0,
    ensures
        prev_nonempty(ts, j) == -1,
    decreases j + 1,
{
    if j >= 0 {
        lemma_prev_all_empty(ts, j - 1);
    }
}

proof fn lemma_prev_nonempty_lens(ts: Seq<Term>, us: Seq<Term>, j: int)
    requires
        ts.len() == us.len(),
        forall|k: int|
            0 <= k < ts.len() ==> ((#[trigger] ts[k]).text@.len() == 0) == (us[k].text@.len() == 0),
    ensures
        prev_nonempty(ts, j) == prev_nonempty(us, j),
    decreases j + 1,
{
    if 0 <= j < ts.len() {
        lemma_prev_nonempty_lens(ts, us, j - 1);
    }
}

/// The sounds of the pratyahara `ik`.
pub open spec fn ik() -> Set<char> {
    spec_s("ik"@)
}

/// Whether `c` is a short vowel of `ik`.
pub open spec fn short_ik(c: char) -> bool {
    crate::sounds::spec_is_hrasva(c) && ik().contains(c)
}

/// Whether `c` is `r` or `v`.
pub open spec fn is_rv(c: char) -> bool {
    c == 'r' || c == 'v'
}

/// `t` with the sound at `k` lengthened.
pub open spec fn lengthen_at(t: Seq<char>, k: int) -> Seq<char> {
    t.subrange(0, k) + seq![crate::sounds::spec_to_dirgha(t[k])->0] + t.subrange(k + 1, t.len() as int)
}

/// Whether `b` is `a` after 8.2.76 - 8.2.79 on the dhatu at `d`, where the next term with text
/// is at `m`.
pub open spec fn lengthen_done(a: Prakriya, b: Prakriya, d: int, m: int) -> bool {
    let t = a.terms_seq()[d].text@;
    let n = t.len();
    if t == "kur"@ || t == "Cur"@ {
        Prakriya::stepped(a, b, "8.2.79")
    } else if n >= 2 && short_ik(t[n - 2]) && is_rv(t[n - 1]) {
        if crate::asiddhavat::hal().contains(a.terms_seq()[m].text@[0]) {
            crate::operators::term_rule_applied(a, b, "8.2.77", d, lengthen_at(t, n - 2))
        } else {
            b == a
        }
    } else if n >= 3 && short_ik(t[n - 3]) && is_rv(t[n - 2]) && crate::sounds::spec_is_hal(
        t[n - 1],
    ) {
        crate::operators::term_rule_applied(a, b, "8.2.78", d, lengthen_at(t, n - 3))
    } else {
        b == a
    }
}

/// Lengthens the short `ik` vowel of the first dhatu before `r` or `v`: before `r` or `v` and a
/// consonant by 8.2.78 (upadhāyāṃ ca), before a final `r` or `v` when a consonant follows by
/// 8.2.77 (hali ca); not in `kur` and `Cur` (8.2.79). Returns `None` where there is no dhatu or
/// no term after it has text.
pub fn try_lengthen_dhatu_vowel(p: &mut Prakriya) -> (r: Option<()>)
    ensures
        (forall|d: int| !crate::abhyasasya::is_first_tagged(old(p).terms_seq(), T::Dhatu, d))
            ==> r is None && *final(p) == *old(p),
        forall|d: int|
            crate::abhyasasya::is_first_tagged(old(p).terms_seq(), T::Dhatu, d) ==> {
                let m = next_nonempty(old(p).terms_seq(), d + 1);
                if m == -1 {
                    r is None && *final(p) == *old(p)
                } else {
                    r is Some && lengthen_done(*old(p), *final(p), d, m)
                }
            },
{
    proof {
        crate::ac_sandhi::lemma_sound_lists();
        crate::asiddhavat::lemma_hal();
        reveal_strlit("kur");
        reveal_strlit("Cur");
    }
    let ghost ts = p.terms_seq();
    let i = match p.find_first(T::Dhatu) {
        Some(i) => i,
        None => {
            return None;
        },
    };
    proof {
        assert(crate::abhyasasya::is_first_tagged(ts, T::Dhatu, i as int));
        assert forall|d: int| crate::abhyasasya::is_first_tagged(ts, T::Dhatu, d) implies d == i by {}
    }
    let i_n = match next_with_text(p, i) {
        Some(j) => j,
        None => {
            return None;
        },
    };
    let ik_set = sounds::s("ik");
    let hal_set = sounds::s("hal");
    let dhatu = &p.terms()[i];
    let text = dhatu.text.as_str();
    let n = text.unicode_len();
    if dhatu.has_text_in(&["kur", "Cur"]) {
        p.step("8.2.79");
    } else if n >= 2 && sounds::is_hrasva(text.get_char(n - 2)) && ik_set.contains_char(
        text.get_char(n - 2),
    ) && (text.get_char(n - 1) == 'r' || text.get_char(n - 1) == 'v') {
        if let Some(sub) = sounds::to_dirgha(text.get_char(n - 2)) {
            if hal_set.contains_opt(p.terms()[i_n].adi()) {
                let sub = crate::strings::char_string(sub);
                let new_text = crate::operations::splice(text, n - 2, n - 1, sub.as_str());
                crate::operators::term_text(p, "8.2.77", i, new_text.as_str());
            }
        }
    } else if n >= 3 && sounds::is_hrasva(text.get_char(n - 3)) && ik_set.contains_char(
        text.get_char(n - 3),
    ) && (text.get_char(n - 2) == 'r' || text.get_char(n - 2) == 'v') && sounds::is_hal(
        text.get_char(n - 1),
    ) {
        if let Some(sub) = sounds::to_dirgha(text.get_char(n - 3)) {
            let sub = crate::strings::char_string(sub);
            let new_text = crate::operations::splice(text, n - 3, n - 2, sub.as_str());
            crate::operators::term_text(p, "8.2.78", i, new_text.as_str());
        }
    }
    Some(())
}

/// `t` with each `f` replaced by `x` and each `r` by `l`.
pub open spec fn ra_to_la(t: Seq<char>) -> Seq<char> {
    t.map_values(
        |c: char|
            if c == 'f' {
                'x'
            } else if c == 'r' {
                'l'
            } else {
                c
            },
    )
}

/// Returns `text` with each `f` replaced by `x` and each `r` by `l`.
fn ra_la_text(text: &str) -> (r: String)
    ensures
        r@ == ra_to_la(text@),
{
    let cs = crate::strings::chars_of(text);
    let mut out = String::new();
    let mut i: usize = 0;
    while i < cs.len()
        invariant
            i <= cs@.len(),
            cs@ == text@,
            out@ == ra_to_la(text@).subrange(0, i as int),
        decreases cs@.len() - i,
    {
        let c = cs[i];
        let d = if c == 'f' {
            'x'
        } else if c == 'r' {
            'l'
        } else {
            c
        };
        crate::strings::push_char(&mut out, d);
        assert(ra_to_la(text@).subrange(0, i + 1) =~= ra_to_la(text@).subrange(0, i as int).push(d));
        i = i + 1;
    }
    assert(ra_to_la(text@).subrange(0, cs@.len() as int) =~= ra_to_la(text@));
    out
}

/// Whether `t` is one of the dhatus `kfp` of 8.2.18 (kṛpo ro laḥ).
pub open spec fn is_kfp(t: Term) -> bool {
    t.u_is("kfpU~\\"@) || t.u_is("kfpa~\\"@) || t.u_is("kfpa~"@)
}

/// Whether 8.2.18 - 8.2.21 change `r` to `l` in term `i` of `ts`, where the rule choices are
/// `choices`. A term is only changed while some term after it has text.
pub open spec fn ra_la_applies(choices: Seq<RuleChoice>, ts: Seq<Term>, i: int) -> bool {
    let j = next_nonempty(ts, i + 1);
    &&& j != -1
    &&& is_kfp(ts[i]) || (ts[i].u_is("gF"@) && (ts[j].u_is("yaN"@) || (ts[i].gana == Some(6i32)
        && crate::sounds::spec_s("ac"@).contains(ts[j].text@[0]) && allows(choices, "8.2.21"@))))
}

/// Whether term `i` of `us` is term `i` of `ts` after `try_change_r_to_l`.
pub open spec fn ra_la_done(choices: Seq<RuleChoice>, ts: Seq<Term>, us: Seq<Term>, i: int) -> bool {
    &&& same_but_text(ts[i], us[i])
    &&& us[i].text@ == if ra_la_applies(choices, ts, i) {
        ra_to_la(ts[i].text@)
    } else {
        ts[i].text@
    }
}

/// Applies 8.2.18 - 8.2.21 to term `i`, where `j` is the next term with text.
fn ra_la_at(p: &mut Prakriya, i: usize, j: usize, ac: &SoundSet)
    requires
        i < j < old(p).terms_seq().len(),
        j == next_nonempty(old(p).terms_seq(), i + 1),
        ac@ == crate::sounds::spec_s("ac"@),
    ensures
        Prakriya::revised(*old(p), *final(p)),
        only_text_at(old(p).terms_seq(), final(p).terms_seq(), i as int),
        ra_la_done(old(p).cfg().rule_choices@, old(p).terms_seq(), final(p).terms_seq(), i as int),
{
    proof {
        crate::prakriya::lemma_rewrote_refl(*p);
        crate::prakriya::lemma_rewrote_revised(*p, *p);
        lemma_next_nonempty_range(p.terms_seq(), i + 1);
    }
    let ghost p0 = *p;
    let x = &p.terms()[i];
    let y = &p.terms()[j];
    if x.has_u_in(&["kfpU~\\", "kfpa~\\", "kfpa~"]) {
        let new_text = ra_la_text(x.text.as_str());
        crate::operators::term_text(p, "8.2.18", i, new_text.as_str());
        proof {
            crate::prakriya::lemma_rewrote_revised(p0, *p);
        }
    } else if x.has_u("gF") {
        if y.has_u("yaN") {
            let new_text = ra_la_text(x.text.as_str());
            crate::operators::term_text(p, "8.2.20", i, new_text.as_str());
            proof {
                crate::prakriya::lemma_rewrote_revised(p0, *p);
            }
        } else if x.has_gana(6) && ac.contains_opt(y.adi()) {
            let new_text = ra_la_text(x.text.as_str());
            crate::operators::term_text_optional(p, "8.2.21", i, new_text.as_str());
        }
    }
}

/// Changes `r` (and `f`) to `l` (and `x`) in `kfp` (8.2.18), in `gF` before `yaN` (8.2.20), and
/// optionally in `gF` of the sixth gana before a vowel (8.2.21). Returns `None` where it stops
/// at a term with no text after it, which is the case for any nonempty list of terms.
pub fn try_change_r_to_l(p: &mut Prakriya) -> (r: Option<()>)
    ensures
        r is None <==> old(p).terms_seq().len() > 0,
        Prakriya::revised(*old(p), *final(p)),
        final(p).terms_seq().len() == old(p).terms_seq().len(),
        forall|i: int|
            0 <= i < old(p).terms_seq().len() ==> #[trigger] ra_la_done(
                old(p).cfg().rule_choices@,
                old(p).terms_seq(),
                final(p).terms_seq(),
                i,
            ),
{
    proof {
        crate::ac_sandhi::lemma_sound_lists();
        crate::prakriya::lemma_rewrote_refl(*p);
        crate::prakriya::lemma_rewrote_revised(*p, *p);
    }
    let ac = sounds::s("ac");
    let ghost ts = p.terms_seq();
    let ghost choices = p.cfg().rule_choices@;
    let n = p.terms().len();
    let mut i: usize = 0;
    while i < n
        invariant
            i <= n,
            n == ts.len(),
            ts == old(p).terms_seq(),
            choices == old(p).cfg().rule_choices@,
            ac@ == crate::sounds::spec_s("ac"@),
            p.terms_seq().len() == n,
            i < n || n == 0,
            Prakriya::revised(*old(p), *p),
            forall|k: int| 0 <= k < i ==> #[trigger] ra_la_done(choices, ts, p.terms_seq(), k),
            forall|k: int| i <= k < n ==> #[trigger] p.terms_seq()[k] == ts[k],
        decreases n - i,
    {
        let ghost before = *p;
        let ghost bs = before.terms_seq();
        proof {
            assert forall|k: int| i + 1 <= k < n implies (#[trigger] bs[k]).text@ == ts[k].text@ by {
                assert(bs[k] == ts[k]);
            }
            lemma_next_nonempty_suffix(bs, ts, i + 1);
            lemma_next_nonempty_range(ts, i + 1);
            lemma_next_nonempty_between(ts, i + 1);
        }
        let j = match next_with_text(p, i) {
            Some(j) => j,
            None => {
                proof {
                    assert forall|k: int| 0 <= k < n implies #[trigger] ra_la_done(
                        choices,
                        ts,
                        p.terms_seq(),
                        k,
                    ) by {
                        if k >= i {
                            assert(p.terms_seq()[k] == ts[k]);
                            lemma_next_nonempty_none(ts, k + 1);
                        }
                    }
                }
                return None;
            },
        };
        ra_la_at(p, i, j, &ac);
        proof {
            crate::prakriya::lemma_revised_trans(*old(p), before, *p);
            assert(bs[i as int] == ts[i as int]);
            assert(bs[j as int] == ts[j as int]);
            assert(ra_la_done(choices, ts, p.terms_seq(), i as int));
            assert forall|k: int| 0 <= k < i + 1 implies #[trigger] ra_la_done(
                choices,
                ts,
                p.terms_seq(),
                k,
            ) by {
                if k < i {
                    assert(ra_la_done(choices, ts, bs, k));
                    assert(p.terms_seq()[k] == bs[k]);
                }
            }
            assert forall|k: int| i + 1 <= k < n implies #[trigger] p.terms_seq()[k] == ts[k] by {
                assert(p.terms_seq()[k] == bs[k]);
            }
        }
        i = i + 1;
    }
    Some(())
}

} // verus!
