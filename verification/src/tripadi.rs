//! Rules of the tripadi (8.2 - 8.4), which apply after all other rules.
use crate::char_view::{
    char_rule, get_at, lemma_same_shape_trans, quiet_at, quiet_on, same_but_log, same_shape, set_at,
    xy,
};
use crate::constants::Tag as T;
use crate::prakriya::{allows, concat_texts, Prakriya};
use crate::sounds::{
    closest_sound, filter_in, joined_words, lemma_filter_in_nonempty, lemma_joined_words,
    lemma_one_word, lemma_two_words, panini_order, spec_s, valid_sound_list,
};
use crate::sounds;
use crate::strings;
use crate::operations::replace_antya;
use crate::sounds::spec_to_dirgha;
use crate::term::{lemma_next_nonempty_found, lemma_next_nonempty_none, next_nonempty, Term};
use vstd::prelude::*;

pub mod pada_8_2;
pub mod pada_8_3;
pub mod pada_8_4;

verus! {

/// The sounds that may stand between a cause of natva and `n` (8.4.2, aṭkupvāṅnumvyavāye 'pi).
pub open spec fn at_ku_pu_m() -> Set<char> {
    spec_s("aw ku~ pu~ M"@)
}

proof fn lemma_at_ku_pu_m()
    ensures
        valid_sound_list("aw ku~ pu~ M"@),
{
    reveal_strlit("aw ku~ pu~ M");
    let ws = seq![seq!['a', 'w'], seq!['k', 'u', '~'], seq!['p', 'u', '~'], seq!['M']];
    assert(ws[0] == seq!['a', 'w']);
    assert(ws[1] == seq!['k', 'u', '~']);
    assert(ws[2] == seq!['p', 'u', '~']);
    assert(ws[3] == seq!['M']);
    assert(ws.drop_last().drop_last().drop_last() =~= seq![seq!['a', 'w']]);
    assert(ws.drop_last().drop_last() =~= seq![seq!['a', 'w'], seq!['k', 'u', '~']]);
    reveal_with_fuel(joined_words, 5);
    assert(joined_words(ws) =~= "aw ku~ pu~ M"@);
    lemma_joined_words(ws);
    reveal_with_fuel(crate::sounds::sutra_with, 2);
    assert(crate::sounds::sutra_with('a', 0) < 14);
}

/// Whether a cause of natva (`r`, `z`, `f` or `F`) stands before index `k` of `t`, with only
/// sounds of `at_ku_pu_m` between them.
pub open spec fn natva_cause_before(t: Seq<char>, k: int) -> bool
    decreases k,
{
    if k <= 0 || k > t.len() {
        false
    } else {
        let c = t[k - 1];
        if c == 'r' || c == 'z' || c == 'f' || c == 'F' {
            true
        } else if !at_ku_pu_m().contains(c) {
            false
        } else {
            natva_cause_before(t, k - 1)
        }
    }
}

/// Returns whether the sound at `i` is an `n` that a preceding `r`, `z`, `f` or `F` changes to
/// `R`, with only sounds of `aw ku~ pu~ M` between them (8.4.1 - 8.4.2).
pub fn allows_natva(text: &str, i: usize) -> (r: bool)
    ensures
        r == (i < text@.len() && text@[i as int] == 'n' && natva_cause_before(text@, i as int)),
{
    proof {
        lemma_at_ku_pu_m();
    }
    let at_ku_pu_m_set = sounds::s("aw ku~ pu~ M");
    let n = text.unicode_len();
    if i < n && text.get_char(i) == 'n' {
        let mut k: usize = i;
        while k > 0
            invariant
                k <= i < n,
                n == text@.len(),
                text@[i as int] == 'n',
                at_ku_pu_m_set@ == at_ku_pu_m(),
                natva_cause_before(text@, i as int) == natva_cause_before(text@, k as int),
            decreases k,
        {
            let c = text.get_char(k - 1);
            if c == 'r' || c == 'z' || c == 'f' || c == 'F' {
                return true;
            } else if !at_ku_pu_m_set.contains_char(c) {
                return false;
            }
            k = k - 1;
        }
    }
    false
}

/// The substitute of a sound of `s tu~` by 8.4.40 (stoḥ ścunā ścuḥ).
pub open spec fn spec_stu_to_scu(c: char) -> Option<Seq<char>> {
    if c == 's' {
        Some(seq!['S'])
    } else if c == 't' {
        Some(seq!['c'])
    } else if c == 'T' {
        Some(seq!['C'])
    } else if c == 'd' {
        Some(seq!['j'])
    } else if c == 'D' {
        Some(seq!['J'])
    } else if c == 'n' {
        Some(seq!['Y'])
    } else {
        None
    }
}

/// The substitute of a sound of `s tu~` by 8.4.41 (ṣṭunā ṣṭuḥ).
pub open spec fn spec_stu_to_swu(c: char) -> Option<Seq<char>> {
    if c == 's' {
        Some(seq!['z'])
    } else if c == 't' {
        Some(seq!['w'])
    } else if c == 'T' {
        Some(seq!['W'])
    } else if c == 'd' {
        Some(seq!['q'])
    } else if c == 'D' {
        Some(seq!['Q'])
    } else if c == 'n' {
        Some(seq!['R'])
    } else {
        None
    }
}

/// 8.4.40 and 8.4.41 keep the manner of the sound they replace: the dental at place `k` of
/// t, T, d, D, n becomes the palatal at place `k` of c, C, j, J, Y (8.4.40) and the retroflex at
/// place `k` of w, W, q, Q, R (8.4.41), so voicing, aspiration and nasality stay; `s` becomes the
/// sibilant of the new place (S, z); no other sound is replaced. `try_change_stu_to_parasavarna`
/// writes exactly these substitutes.
pub proof fn lemma_stu_substitutes_keep_manner(c: char)
    ensures
        forall|k: int|
            0 <= k < 5 && seq!['t', 'T', 'd', 'D', 'n'][k] == c ==> spec_stu_to_swu(c) == Some(
                seq![seq!['w', 'W', 'q', 'Q', 'R'][k]],
            ) && spec_stu_to_scu(c) == Some(seq![seq!['c', 'C', 'j', 'J', 'Y'][k]]),
        c == 's' ==> spec_stu_to_swu(c) == Some(seq!['z']) && spec_stu_to_scu(c) == Some(seq!['S']),
        !seq!['s', 't', 'T', 'd', 'D', 'n'].contains(c) ==> spec_stu_to_swu(c) is None
            && spec_stu_to_scu(c) is None,
{
    let dental = seq!['t', 'T', 'd', 'D', 'n'];
    let sd = seq!['s', 't', 'T', 'd', 'D', 'n'];
    if sd.contains(c) {
        let j = choose|j: int| 0 <= j < sd.len() && sd[j] == c;
        assert(j == 0 || j == 1 || j == 2 || j == 3 || j == 4 || j == 5);
    } else {
        assert(c != sd[0] && c != sd[1] && c != sd[2] && c != sd[3] && c != sd[4] && c != sd[5]);
    }
    assert forall|k: int| 0 <= k < 5 && dental[k] == c implies spec_stu_to_swu(c) == Some(
        seq![seq!['w', 'W', 'q', 'Q', 'R'][k]],
    ) && spec_stu_to_scu(c) == Some(seq![seq!['c', 'C', 'j', 'J', 'Y'][k]]) by {
        assert(k == 0 || k == 1 || k == 2 || k == 3 || k == 4);
    }
}

/// Returns the palatal that replaces a dental or `s` by 8.4.40, if `c` is one.
pub fn stu_to_scu(c: char) -> (r: Option<&'static str>)
    ensures
        match r {
            Some(x) => spec_stu_to_scu(c) == Some(x@),
            None => spec_stu_to_scu(c) is None,
        },
{
    proof {
        reveal_strlit("S");
        reveal_strlit("c");
        reveal_strlit("C");
        reveal_strlit("j");
        reveal_strlit("J");
        reveal_strlit("Y");
    }
    let res = match c {
        's' => "S",
        't' => "c",
        'T' => "C",
        'd' => "j",
        'D' => "J",
        'n' => "Y",
        _ => {
            return None;
        },
    };
    Some(res)
}

/// Returns the retroflex that replaces a dental or `s` by 8.4.41, if `c` is one.
pub fn stu_to_swu(c: char) -> (r: Option<&'static str>)
    ensures
        match r {
            Some(x) => spec_stu_to_swu(c) == Some(x@),
            None => spec_stu_to_swu(c) is None,
        },
{
    proof {
        reveal_strlit("z");
        reveal_strlit("w");
        reveal_strlit("W");
        reveal_strlit("q");
        reveal_strlit("Q");
        reveal_strlit("R");
    }
    let res = match c {
        's' => "z",
        't' => "w",
        'T' => "W",
        'd' => "q",
        'D' => "Q",
        'n' => "R",
        _ => {
            return None;
        },
    };
    Some(res)
}

/// The sounds of the pratyahara `Jal`.
pub open spec fn jhal() -> Set<char> {
    spec_s("Jal"@)
}

/// The mapping of `map_sounds(xs, ys)`: each sound of `xs` to its closest sound of `ys`.
pub open spec fn sound_mapping(xs: Seq<char>, ys: Seq<char>) -> Map<char, char> {
    Map::new(
        |x: char| filter_in(panini_order(), spec_s(xs)).contains(x),
        |x: char| closest_sound(x, filter_in(panini_order(), spec_s(ys))),
    )
}

/// The mapping of 8.4.55 (khari ca): each sound of `Jal` to its closest sound of `car`.
pub open spec fn jhal_to_car() -> Map<char, char> {
    sound_mapping("Jal"@, "car"@)
}

pub(crate) proof fn lemma_jhal_lists()
    ensures
        valid_sound_list("Jal"@),
        valid_sound_list("JaS"@),
        valid_sound_list("Kar"@),
        valid_sound_list("jaS"@),
        valid_sound_list("car"@),
        valid_sound_list("jaS car"@),
        filter_in(panini_order(), spec_s("jaS"@)).len() > 0,
        filter_in(panini_order(), spec_s("car"@)).len() > 0,
        filter_in(panini_order(), spec_s("jaS car"@)).len() > 0,
{
    reveal_strlit("Jal");
    reveal_strlit("JaS");
    reveal_strlit("Kar");
    reveal_strlit("jaS");
    reveal_strlit("car");
    reveal_strlit("jaS car");
    lemma_one_word("Jal"@);
    lemma_one_word("JaS"@);
    lemma_one_word("Kar"@);
    lemma_one_word("jaS"@);
    lemma_one_word("car"@);
    let ws = seq![seq!['j', 'a', 'S'], seq!['c', 'a', 'r']];
    assert(ws[0] == seq!['j', 'a', 'S']);
    assert(ws[1] == seq!['c', 'a', 'r']);
    assert(ws.drop_last() =~= seq![seq!['j', 'a', 'S']]);
    reveal_with_fuel(joined_words, 3);
    assert(joined_words(ws) =~= "jaS car"@);
    lemma_joined_words(ws);
    reveal_with_fuel(crate::sounds::sutra_with, 12);
    reveal_with_fuel(crate::sounds::sutra_ending_in, 4);
    reveal_with_fuel(crate::sounds::index_from, 7);
    assert(crate::sounds::sutra_with('J', 0) == 7);
    assert(crate::sounds::sutra_with('K', 0) == 10);
    assert(crate::sounds::sutra_with('j', 0) == 9);
    assert(crate::sounds::sutra_with('c', 0) == 10);
    assert(crate::sounds::index_from(crate::sounds::shiva_sutras()[9].0, 'j', 0) == 0);
    assert(crate::sounds::index_from(crate::sounds::shiva_sutras()[10].0, 'c', 0) == 5);
    assert(crate::sounds::sutra_ending_in('S', 9) == 9);
    assert(crate::sounds::sutra_ending_in('r', 10) == 12);
    assert(crate::sounds::sound_or_long_at(9, 0, 'j'));
    assert(crate::sounds::sound_or_long_at(10, 5, 'c'));
    let jw = crate::sounds::words("jaS"@)[0];
    assert(jw == "jaS"@);
    assert(crate::sounds::word_sounds(jw).contains('j'));
    assert(spec_s("jaS"@).contains('j'));
    let cw = crate::sounds::words("car"@)[0];
    assert(cw == "car"@);
    assert(crate::sounds::word_sounds(cw).contains('c'));
    assert(spec_s("car"@).contains('c'));
    assert(crate::sounds::words("jaS car"@)[0] == jw);
    assert(spec_s("jaS car"@).contains('j'));
    assert(panini_order()[23] == 'j');
    assert(panini_order()[21] == 'c');
    lemma_filter_in_nonempty(panini_order(), spec_s("jaS"@), 'j');
    lemma_filter_in_nonempty(panini_order(), spec_s("car"@), 'c');
    lemma_filter_in_nonempty(panini_order(), spec_s("jaS car"@), 'j');
}

/// Whether the last sound of `t` is settled under 8.4.56 (vā 'vasāne): it is not a sound of
/// `Jal`, it has no `car` substitute or is its own, or the rule choices decline 8.4.56.
pub open spec fn avasana_settled(t: Seq<char>, choices: Seq<crate::prakriya::RuleChoice>) -> bool {
    t.len() > 0 && jhal().contains(t.last()) ==> (!jhal_to_car().dom().contains(t.last())
        || jhal_to_car()[t.last()] == t.last() || !allows(choices, "8.4.56"@))
}

/// The mapping of 8.4.53 (jhalāṃ jaś jhaśi): each sound of `Jal` to its closest sound of `jaS`.
pub open spec fn jhal_to_jash() -> Map<char, char> {
    sound_mapping("Jal"@, "jaS"@)
}

/// The mapping of 8.4.54 (abhyāse car ca): each sound of `Jal` to its closest sound of `jaS`
/// or `car`.
pub open spec fn jhal_to_jash_car() -> Map<char, char> {
    sound_mapping("Jal"@, "jaS car"@)
}

/// Whether the mapping `m` moves the sound `c` to another sound.
pub open spec fn moves(m: Map<char, char>, c: char) -> bool {
    m.dom().contains(c) && m[c] != c
}

/// Whether a sound of `Jal` at `i` of `t` stands before a sound of `next`.
pub open spec fn jhal_before(t: Seq<char>, i: int, next: Set<char>) -> bool {
    i + 1 < t.len() && jhal().contains(t[i]) && next.contains(t[i + 1])
}

/// Whether 8.4.53 changes the sound at `i` of `t`: a sound of `Jal` before one of `JaS` that
/// has another `jaS` substitute.
pub open spec fn jash_change_at(t: Seq<char>, i: int) -> bool {
    0 <= i && jhal_before(t, i, spec_s("JaS"@)) && moves(jhal_to_jash(), t[i])
}

/// Whether 8.4.55 changes the sound at `i` of `t`: a sound of `Jal` before one of `Kar` that
/// has another `car` substitute.
pub open spec fn car_change_at(t: Seq<char>, i: int) -> bool {
    0 <= i && jhal_before(t, i, spec_s("Kar"@)) && moves(jhal_to_car(), t[i])
}

/// Whether 8.4.54 would change the first sound of the abhyasa `t`.
pub open spec fn abhyasa_change(t: Term) -> bool {
    t.tagged(T::Abhyasa) && t.text@.len() > 0 && jhal().contains(t.text@[0]) && moves(
        jhal_to_jash_car(),
        t.text@[0],
    )
}

/// Whether none of the rules of `try_jhal_adesha` has anything to change on `ts` under the
/// rule choices `choices`.
pub open spec fn jhal_rules_idle(ts: Seq<Term>, choices: Seq<crate::prakriya::RuleChoice>) -> bool {
    let t = concat_texts(ts);
    &&& forall|i: int| !#[trigger] jash_change_at(t, i)
    &&& forall|k: int| 0 <= k < ts.len() ==> !abhyasa_change(#[trigger] ts[k])
    &&& forall|i: int| !#[trigger] car_change_at(t, i)
    &&& avasana_settled(t, choices)
}

/// Texts, and a rule on sounds over them: where the rule accepts sound `i` of the joined texts,
/// and what it makes of the texts there.
pub type SoundAccepts = spec_fn(Seq<Seq<char>>, int) -> bool;

/// What a rule on sounds makes of the texts at sound `i` of their joined text: `None` where it
/// reports no change.
pub type SoundRewrite = spec_fn(Seq<Seq<char>>, int) -> Option<Seq<Seq<char>>>;

/// The texts `xs` with sound `i` of their joined text put for by its image under `m`, where `m`
/// moves it to another sound; `None` otherwise.
pub open spec fn substitute_by(m: Map<char, char>, xs: Seq<Seq<char>>, i: int) -> Option<Seq<Seq<char>>> {
    let t = crate::char_view::joined(xs);
    if 0 <= i < t.len() && moves(m, t[i]) {
        Some(crate::char_view::set_sound(xs, i, seq![m[t[i]]]))
    } else {
        None
    }
}

/// Where 8.4.53 looks: a sound of `Jal` before one of `JaS`.
pub open spec fn jash_accepts() -> SoundAccepts {
    |xs: Seq<Seq<char>>, i: int| jhal_before(crate::char_view::joined(xs), i, spec_s("JaS"@))
}

/// What 8.4.53 puts: the `jaS` substitute of the sound.
pub open spec fn jash_rewrite() -> SoundRewrite {
    |xs: Seq<Seq<char>>, i: int| substitute_by(jhal_to_jash(), xs, i)
}

/// Where 8.4.55 looks: a sound of `Jal` before one of `Kar`.
pub open spec fn car_accepts() -> SoundAccepts {
    |xs: Seq<Seq<char>>, i: int| jhal_before(crate::char_view::joined(xs), i, spec_s("Kar"@))
}

/// What 8.4.55 puts: the `car` substitute of the sound.
pub open spec fn car_rewrite() -> SoundRewrite {
    |xs: Seq<Seq<char>>, i: int| substitute_by(jhal_to_car(), xs, i)
}

/// Where 8.4.56 looks: a final sound of `Jal`.
pub open spec fn avasana_accepts() -> SoundAccepts {
    |xs: Seq<Seq<char>>, i: int| i + 1 == crate::char_view::joined(xs).len() && jhal().contains(
        crate::char_view::joined(xs)[i],
    )
}

/// What 8.4.56 puts under the rule choices `choices`: the `car` substitute of the sound, where
/// the choices allow the rule.
pub open spec fn avasana_rewrite(choices: Seq<crate::prakriya::RuleChoice>) -> SoundRewrite {
    |xs: Seq<Seq<char>>, i: int| if allows(choices, "8.4.56"@) {
        substitute_by(jhal_to_car(), xs, i)
    } else {
        None
    }
}

/// The texts `xs` of the terms `ts` after 8.4.54 (abhyāse car ca): the first sound of the first
/// abhyasa, where it is a sound of `Jal`, becomes its closest sound of `jaS` or `car`.
pub open spec fn abhyasa_jash_car(ts: Seq<Term>, xs: Seq<Seq<char>>) -> Seq<Seq<char>> {
    let k = crate::ardhadhatuka::first_tagged(ts, T::Abhyasa);
    if 0 <= k < xs.len() && xs[k].len() > 0 && jhal().contains(xs[k][0]) && jhal_to_jash_car().dom().contains(
        xs[k][0],
    ) {
        xs.update(k, crate::operations::replace_adi(xs[k], seq![jhal_to_jash_car()[xs[k][0]]]))
    } else {
        xs
    }
}

/// Terms with the same tags have their first term with a given tag at the same place.
proof fn lemma_first_tagged_shape(a: Seq<Term>, b: Seq<Term>, tag: T)
    requires
        a.len() == b.len(),
        forall|k: int| 0 <= k < a.len() ==> (#[trigger] a[k]).tagged(tag) == b[k].tagged(tag),
    ensures
        crate::ardhadhatuka::first_tagged(a, tag) == crate::ardhadhatuka::first_tagged(b, tag),
    decreases a.len(),
{
    if a.len() > 0 {
        assert(a[0].tagged(tag) == b[0].tagged(tag));
        assert forall|k: int| 0 <= k < a.skip(1).len() implies (#[trigger] a.skip(1)[k]).tagged(tag)
            == b.skip(1)[k].tagged(tag) by {
            assert(a[k + 1].tagged(tag) == b[k + 1].tagged(tag));
        }
        lemma_first_tagged_shape(a.skip(1), b.skip(1), tag);
    }
}

/// The texts of the terms `ts` after 8.4.53 to 8.4.56 under the rule choices `choices`, each
/// rule on sounds applied pass after pass until it changes nothing (`settle`); `None` where one
/// of them does not settle.
pub open spec fn jhal_adesha_texts(ts: Seq<Term>, choices: Seq<crate::prakriya::RuleChoice>) -> Option<
    Seq<Seq<char>>,
> {
    match crate::char_view::settle(jash_accepts(), jash_rewrite(), crate::char_view::term_texts(ts), 10) {
        None => None,
        Some(xs) => match crate::char_view::settle(
            car_accepts(),
            car_rewrite(),
            abhyasa_jash_car(ts, xs),
            10,
        ) {
            None => None,
            Some(ys) => crate::char_view::settle(avasana_accepts(), avasana_rewrite(choices), ys, 10),
        },
    }
}

/// Replaces sounds of `Jal` with `jaS` before `JaS` (8.4.53), the first sound of the abhyasa
/// with `jaS` or `car` (8.4.54), sounds of `Jal` with `car` before `Kar` (8.4.55) and,
/// optionally, a final sound of `Jal` with `car` (8.4.56). Returns whether each rule on
/// sounds settled; where one keeps changing the text, it stops there and returns false.
pub fn try_jhal_adesha(p: &mut Prakriya) -> (done: bool)
    ensures
        same_shape(*old(p), *final(p)),
        done ==> avasana_settled(
            concat_texts(final(p).terms_seq()),
            final(p).cfg().rule_choices@,
        ),
        jhal_rules_idle(old(p).terms_seq(), old(p).cfg().rule_choices@) ==> done
            && crate::char_view::term_texts(final(p).terms_seq()) == crate::char_view::term_texts(
            old(p).terms_seq(),
        ),
        done == jhal_adesha_texts(old(p).terms_seq(), old(p).cfg().rule_choices@) is Some,
        done ==> crate::char_view::term_texts(final(p).terms_seq()) == jhal_adesha_texts(
            old(p).terms_seq(),
            old(p).cfg().rule_choices@,
        )->0 && final(p).cfg() == old(p).cfg(),
{
    proof {
        lemma_jhal_lists();
    }
    let jhal_set = sounds::s("Jal");
    let jhash = sounds::s("JaS");
    let khar = sounds::s("Kar");
    let to_jash = sounds::map_sounds("Jal", "jaS");
    let to_car = sounds::map_sounds("Jal", "car");
    let to_jash_car = sounds::map_sounds("Jal", "jaS car");
    let ghost p0 = *p;
    let ghost idle = jhal_rules_idle(p.terms_seq(), p.cfg().rule_choices@);

    let o = |p: &mut Prakriya, text: &str, i: usize| -> (c: bool)
        ensures
            same_shape(*old(p), *final(p)),
            !c ==> *final(p) == *old(p),
            c ==> i < text@.len() && moves(to_jash@, text@[i as int]),
            text@ == concat_texts(old(p).terms_seq()) && (i as int) < text@.len() ==> (c == substitute_by(to_jash@, crate::char_view::term_texts(old(p).terms_seq()), i as int) is Some) && (c
                ==> final(p).cfg() == old(p).cfg() && final(p).tag_set() == old(p).tag_set()
                && crate::char_view::term_texts(final(p).terms_seq()) == substitute_by(to_jash@, crate::char_view::term_texts(old(p).terms_seq()), i as int)->0),
        {
            proof {
                crate::char_view::lemma_joined(p.terms_seq());
            }
            if i >= text.unicode_len() {
                return false;
            }
            let x = text.get_char(i);
            match to_jash.get(x) {
                Some(sub) => {
                    if x != sub {
                        let sub = strings::char_string(sub);
                        set_at(p, i, sub.as_str());
                        p.step("8.4.53");
                        true
                    } else {
                        false
                    }
                },
                None => false,
            }
        };
    let inner = |x: char, y: char| -> (b: bool)
        ensures
            b == (jhal_set@.contains(x) && jhash@.contains(y)),
        { jhal_set.contains_char(x) && jhash.contains_char(y) };
    let f = xy(inner);
    proof {
        if idle {
            let x = *p;
            assert forall|q: &mut Prakriya, t: &str, i: usize, c: bool|
                #[trigger] call_ensures(o, (q, t, i), c) && c && same_but_log(x, *q) implies (i as int) < t@.len()
                && moves(jhal_to_jash(), t@[i as int]) by {}
            assert forall|q: &mut Prakriya, t: &str, i: usize, b: bool|
                #[trigger] call_ensures(f, (q, t, i), b) && b implies jhal_before(t@, i as int, spec_s("JaS"@)) by {
                if i + 1 < t@.len() {
                    assert(call_ensures(inner, (t@[i as int], t@[i + 1]), b));
                }
            }
            let t = concat_texts(x.terms_seq());
            assert forall|i: int|
                0 <= i < t.len() && #[trigger] jhal_before(t, i, spec_s("JaS"@)) implies !(i < t.len()
                && moves(jhal_to_jash(), t[i])) by {
                assert(!jash_change_at(t, i));
            }
            crate::char_view::lemma_cond_pair_inert(
                f,
                o,
                |t: Seq<char>, i: int| jhal_before(t, i, spec_s("JaS"@)),
                |t: Seq<char>, i: int| i < t.len() && moves(jhal_to_jash(), t[i]),
                x,
            );
        }
    }
    let ghost x1 = *p;
    proof {
        assert forall|q: &mut Prakriya, t: &str, i: usize, b: bool|
            #[trigger] call_ensures(f, (q, t, i), b) && same_shape(x1, *q) && q.cfg() == x1.cfg()
                && t@ == concat_texts(q.terms_seq()) && (i as int) < t@.len() implies same_but_log(
            *q,
            *final(q),
        ) && b == (jash_accepts())(crate::char_view::term_texts(q.terms_seq()), i as int) by {
            crate::char_view::lemma_joined(q.terms_seq());
                if i + 1 < t@.len() {
                    assert(call_ensures(inner, (t@[i as int], t@[i + 1]), b));
                }
        }
        assert forall|q: &mut Prakriya, t: &str, i: usize, c: bool|
            #[trigger] call_ensures(o, (q, t, i), c) && same_shape(x1, *q) && q.cfg() == x1.cfg()
                && t@ == concat_texts(q.terms_seq()) && (i as int) < t@.len() implies (c == (jash_rewrite())(
            crate::char_view::term_texts(q.terms_seq()),
            i as int,
        ) is Some) && (c ==> same_shape(*q, *final(q)) && final(q).cfg() == q.cfg()
            && final(q).tag_set() == q.tag_set() && crate::char_view::term_texts(final(q).terms_seq())
            == (jash_rewrite())(crate::char_view::term_texts(q.terms_seq()), i as int)->0) && (!c
            ==> same_but_log(*q, *final(q))) by {}
    }
    let r1 = char_rule(p, f, o);
    proof {
        assert(crate::char_view::settle(jash_accepts(), jash_rewrite(), crate::char_view::term_texts(x1.terms_seq()), 10)
            == crate::char_view::settle(jash_accepts(), jash_rewrite(), crate::char_view::term_texts(x1.terms_seq()), 10));
    }
    if !r1 {
        return false;
    }
    let ghost p1 = *p;
    proof {
        if idle {
            assert(p1.terms_seq() == p0.terms_seq());
        }
    }

    proof {
        assert forall|k: int| 0 <= k < p0.terms_seq().len() implies (#[trigger] p0.terms_seq()[k]).tagged(
            T::Abhyasa,
        ) == p1.terms_seq()[k].tagged(T::Abhyasa) by {
            assert(crate::operations::same_but_text(p0.terms_seq()[k], p1.terms_seq()[k]));
        }
        lemma_first_tagged_shape(p0.terms_seq(), p1.terms_seq(), T::Abhyasa);
    }
    let found = p.find_first(T::Abhyasa);
    proof {
        crate::ardhadhatuka::lemma_find_first(p1.terms_seq(), T::Abhyasa, found);
    }
    if let Some(i) = found {
        if let Some(c) = p.terms()[i].adi() {
            if jhal_set.contains_char(c) {
                if let Some(sub) = to_jash_car.get(c) {
                    let sub = strings::char_string(sub);
                    let ghost before = *p;
                    crate::operators::term_adi(p, "8.4.54", i, sub.as_str());
                    assert(crate::char_view::term_texts(p.terms_seq()) =~= abhyasa_jash_car(
                        p0.terms_seq(),
                        crate::char_view::term_texts(p1.terms_seq()),
                    ));
                    proof {
                        if idle {
                            let ts = before.terms_seq();
                            assert(!abhyasa_change(ts[i as int]));
                            assert(crate::operations::replace_adi(ts[i as int].text@, seq![c])
                                =~= ts[i as int].text@);
                            assert(crate::char_view::term_texts(p.terms_seq())
                                =~= crate::char_view::term_texts(ts));
                        }
                    }
                }
            }
        }
    }
    let ghost p2 = *p;
    proof {
        lemma_same_shape_trans(p0, p1, p2);
        assert(crate::char_view::term_texts(p2.terms_seq()) =~= abhyasa_jash_car(
            p0.terms_seq(),
            crate::char_view::term_texts(p1.terms_seq()),
        ));
        assert(p2.cfg() == p0.cfg());
    }

    let o = |p: &mut Prakriya, text: &str, i: usize| -> (c: bool)
        ensures
            same_shape(*old(p), *final(p)),
            !c ==> *final(p) == *old(p),
            c ==> i < text@.len() && moves(to_car@, text@[i as int]),
            text@ == concat_texts(old(p).terms_seq()) && (i as int) < text@.len() ==> (c == substitute_by(to_car@, crate::char_view::term_texts(old(p).terms_seq()), i as int) is Some) && (c
                ==> final(p).cfg() == old(p).cfg() && final(p).tag_set() == old(p).tag_set()
                && crate::char_view::term_texts(final(p).terms_seq()) == substitute_by(to_car@, crate::char_view::term_texts(old(p).terms_seq()), i as int)->0),
        {
            proof {
                crate::char_view::lemma_joined(p.terms_seq());
            }
            if i >= text.unicode_len() {
                return false;
            }
            let x = text.get_char(i);
            match to_car.get(x) {
                Some(sub) => {
                    if x != sub {
                        let sub = strings::char_string(sub);
                        set_at(p, i, sub.as_str());
                        p.step("8.4.55");
                        true
                    } else {
                        false
                    }
                },
                None => false,
            }
        };
    let inner = |x: char, y: char| -> (b: bool)
        ensures
            b == (jhal_set@.contains(x) && khar@.contains(y)),
        { jhal_set.contains_char(x) && khar.contains_char(y) };
    let f = xy(inner);
    proof {
        if idle {
            let x = *p;
            crate::char_view::lemma_concat_by_texts(x.terms_seq(), p0.terms_seq());
            assert forall|q: &mut Prakriya, t: &str, i: usize, c: bool|
                #[trigger] call_ensures(o, (q, t, i), c) && c && same_but_log(x, *q) implies (i as int) < t@.len()
                && moves(jhal_to_car(), t@[i as int]) by {}
            assert forall|q: &mut Prakriya, t: &str, i: usize, b: bool|
                #[trigger] call_ensures(f, (q, t, i), b) && b implies jhal_before(t@, i as int, spec_s("Kar"@)) by {
                if i + 1 < t@.len() {
                    assert(call_ensures(inner, (t@[i as int], t@[i + 1]), b));
                }
            }
            let t = concat_texts(x.terms_seq());
            assert forall|i: int|
                0 <= i < t.len() && #[trigger] jhal_before(t, i, spec_s("Kar"@)) implies !(i < t.len()
                && moves(jhal_to_car(), t[i])) by {
                assert(!car_change_at(t, i));
            }
            crate::char_view::lemma_cond_pair_inert(
                f,
                o,
                |t: Seq<char>, i: int| jhal_before(t, i, spec_s("Kar"@)),
                |t: Seq<char>, i: int| i < t.len() && moves(jhal_to_car(), t[i]),
                x,
            );
        }
    }
    let ghost x3 = *p;
    proof {
        assert forall|q: &mut Prakriya, t: &str, i: usize, b: bool|
            #[trigger] call_ensures(f, (q, t, i), b) && same_shape(x3, *q) && q.cfg() == x3.cfg()
                && t@ == concat_texts(q.terms_seq()) && (i as int) < t@.len() implies same_but_log(
            *q,
            *final(q),
        ) && b == (car_accepts())(crate::char_view::term_texts(q.terms_seq()), i as int) by {
            crate::char_view::lemma_joined(q.terms_seq());
                if i + 1 < t@.len() {
                    assert(call_ensures(inner, (t@[i as int], t@[i + 1]), b));
                }
        }
        assert forall|q: &mut Prakriya, t: &str, i: usize, c: bool|
            #[trigger] call_ensures(o, (q, t, i), c) && same_shape(x3, *q) && q.cfg() == x3.cfg()
                && t@ == concat_texts(q.terms_seq()) && (i as int) < t@.len() implies (c == (car_rewrite())(
            crate::char_view::term_texts(q.terms_seq()),
            i as int,
        ) is Some) && (c ==> same_shape(*q, *final(q)) && final(q).cfg() == q.cfg()
            && final(q).tag_set() == q.tag_set() && crate::char_view::term_texts(final(q).terms_seq())
            == (car_rewrite())(crate::char_view::term_texts(q.terms_seq()), i as int)->0) && (!c
            ==> same_but_log(*q, *final(q))) by {}
    }
    let r3 = char_rule(p, f, o);
    proof {
        assert(crate::char_view::settle(car_accepts(), car_rewrite(), crate::char_view::term_texts(x3.terms_seq()), 10)
            == crate::char_view::settle(car_accepts(), car_rewrite(), crate::char_view::term_texts(x3.terms_seq()), 10));
    }
    if !r3 {
        return false;
    }
    let ghost p3 = *p;
    proof {
        lemma_same_shape_trans(p0, p2, p3);
    }

    let f = |p: &mut Prakriya, text: &str, i: usize| -> (b: bool)
        ensures
            *final(p) == *old(p),
            b == (i + 1 == text@.len() && jhal_set@.contains(text@[i as int])),
        {
            let n = text.unicode_len();
            i < n && jhal_set.contains_char(text.get_char(i)) && i == n - 1
        };
    let o = |p: &mut Prakriya, text: &str, i: usize| -> (c: bool)
        ensures
            same_shape(*old(p), *final(p)),
            !c ==> same_but_log(*old(p), *final(p)),
            !c && i < text@.len() ==> (!to_car@.dom().contains(text@[i as int])
                || to_car@[text@[i as int]] == text@[i as int] || !allows(
                old(p).cfg().rule_choices@,
                "8.4.56"@,
            )),
            c ==> i < text@.len() && moves(to_car@, text@[i as int]) && allows(
                old(p).cfg().rule_choices@,
                "8.4.56"@,
            ),
            text@ == concat_texts(old(p).terms_seq()) && (i as int) < text@.len() ==> (c == (if allows(old(p).cfg().rule_choices@, "8.4.56"@) { substitute_by(to_car@, crate::char_view::term_texts(old(p).terms_seq()), i as int) } else { None }) is Some) && (c
                ==> final(p).cfg() == old(p).cfg() && final(p).tag_set() == old(p).tag_set()
                && crate::char_view::term_texts(final(p).terms_seq()) == (if allows(old(p).cfg().rule_choices@, "8.4.56"@) { substitute_by(to_car@, crate::char_view::term_texts(old(p).terms_seq()), i as int) } else { None })->0),
        {
            proof {
                crate::char_view::lemma_joined(p.terms_seq());
            }
            if i >= text.unicode_len() {
                return false;
            }
            let code = "8.4.56";
            let x = text.get_char(i);
            match to_car.get(x) {
                Some(sub) => {
                    if x != sub {
                        if p.is_allowed(code) {
                            let sub = strings::char_string(sub);
                            set_at(p, i, sub.as_str());
                            p.step(code);
                            true
                        } else {
                            p.decline(code);
                            false
                        }
                    } else {
                        false
                    }
                },
                None => false,
            }
        };
    proof {
        if idle {
            let x = *p;
            let choices = p0.cfg().rule_choices@;
            crate::char_view::lemma_concat_by_texts(x.terms_seq(), p0.terms_seq());
            assert(x.cfg() == p0.cfg());
            let t = concat_texts(x.terms_seq());
            assert(avasana_settled(t, choices));
            crate::char_view::lemma_cond_pair_inert(
                f,
                o,
                |t: Seq<char>, i: int| i + 1 == t.len() && jhal().contains(t[i]),
                |t: Seq<char>, i: int| i < t.len() && moves(jhal_to_car(), t[i]) && allows(
                    choices,
                    "8.4.56"@,
                ),
                x,
            );
        }
    }
    let ghost x4 = *p;
    proof {
        assert forall|q: &mut Prakriya, t: &str, i: usize, b: bool|
            #[trigger] call_ensures(f, (q, t, i), b) && same_shape(x4, *q) && q.cfg() == x4.cfg()
                && t@ == concat_texts(q.terms_seq()) && (i as int) < t@.len() implies same_but_log(
            *q,
            *final(q),
        ) && b == (avasana_accepts())(crate::char_view::term_texts(q.terms_seq()), i as int) by {
            crate::char_view::lemma_joined(q.terms_seq());
        }
        assert forall|q: &mut Prakriya, t: &str, i: usize, c: bool|
            #[trigger] call_ensures(o, (q, t, i), c) && same_shape(x4, *q) && q.cfg() == x4.cfg()
                && t@ == concat_texts(q.terms_seq()) && (i as int) < t@.len() implies (c == (avasana_rewrite(p0.cfg().rule_choices@))(
            crate::char_view::term_texts(q.terms_seq()),
            i as int,
        ) is Some) && (c ==> same_shape(*q, *final(q)) && final(q).cfg() == q.cfg()
            && final(q).tag_set() == q.tag_set() && crate::char_view::term_texts(final(q).terms_seq())
            == (avasana_rewrite(p0.cfg().rule_choices@))(crate::char_view::term_texts(q.terms_seq()), i as int)->0) && (!c
            ==> same_but_log(*q, *final(q))) by {}
    }
    let done = char_rule(p, f, o);
    proof {
        assert(crate::char_view::settle(avasana_accepts(), avasana_rewrite(p0.cfg().rule_choices@), crate::char_view::term_texts(x4.terms_seq()), 10)
            == crate::char_view::settle(avasana_accepts(), avasana_rewrite(p0.cfg().rule_choices@), crate::char_view::term_texts(x4.terms_seq()), 10));
    }

    proof {
        lemma_same_shape_trans(p0, p3, *p);
        if done {
            lemma_avasana_quiet(f, o, to_car@, jhal_set@, *p);
        }
    }
    done
}

proof fn lemma_avasana_quiet<FF, OO>(f: FF, o: OO, car: Map<char, char>, jh: Set<char>, x: Prakriya) where
    FF: Fn(&mut Prakriya, &str, usize) -> bool,
    OO: Fn(&mut Prakriya, &str, usize) -> bool,

    requires
        car == jhal_to_car(),
        jh == jhal(),
        forall|q: &mut Prakriya, t: &str, i: usize, b: bool|
            #[trigger] call_ensures(f, (q, t, i), b) ==> b == (i + 1 == t@.len() && jh.contains(
                t@[i as int],
            )),
        forall|q: &mut Prakriya, t: &str, i: usize, c: bool|
            #[trigger] call_ensures(o, (q, t, i), c) ==> (!c && i < t@.len() ==> (
            !car.dom().contains(t@[i as int]) || car[t@[i as int]] == t@[i as int] || !allows(
                q.cfg().rule_choices@,
                "8.4.56"@,
            ))),
        quiet_on(f, o, x),
    ensures
        avasana_settled(concat_texts(x.terms_seq()), x.cfg().rule_choices@),
{
    let (start, text) = choose|start: Prakriya, text: &str|
        #![trigger same_but_log(start, x), text@]
        same_but_log(start, x) && text@ == concat_texts(start.terms_seq()) && text@.len()
            <= usize::MAX && forall|i: usize|
            (i as int) < text@.len() ==> #[trigger] quiet_at(f, o, text, i, start);
    let t = text@;
    if t.len() > 0 && jhal().contains(t.last()) {
        let iu = (t.len() - 1) as usize;
        assert(quiet_at(f, o, text, iu, start));
        let (q, b) = choose|q: &mut Prakriya, b: bool|
            same_but_log(start, *q) && #[trigger] call_ensures(f, (q, text, iu), b) && (b ==> exists|
                q2: &mut Prakriya,
            | same_but_log(start, *q2) && #[trigger] call_ensures(o, (q2, text, iu), false));
        assert(b);
        let q2 = choose|q2: &mut Prakriya|
            same_but_log(start, *q2) && #[trigger] call_ensures(o, (q2, text, iu), false);
        assert(call_ensures(o, (q2, text, iu), false));
    }
}

proof fn lemma_stu_lists()
    ensures
        valid_sound_list("S cu~"@),
        valid_sound_list("z wu~"@),
        valid_sound_list("s tu~"@),
        valid_sound_list("tu~"@),
{
    reveal_strlit("S cu~");
    reveal_strlit("z wu~");
    reveal_strlit("s tu~");
    reveal_strlit("tu~");
    assert("S cu~"@ =~= seq!['S'] + seq![' '] + seq!['c', 'u', '~']);
    assert("z wu~"@ =~= seq!['z'] + seq![' '] + seq!['w', 'u', '~']);
    assert("s tu~"@ =~= seq!['s'] + seq![' '] + seq!['t', 'u', '~']);
    lemma_two_words(seq!['S'], seq!['c', 'u', '~']);
    lemma_two_words(seq!['z'], seq!['w', 'u', '~']);
    lemma_two_words(seq!['s'], seq!['t', 'u', '~']);
    lemma_one_word("tu~"@);
}

/// Whether `x` and `y` are a sound of `s tu~` and a sound of `other`, in either order.
pub open spec fn stu_pair(x: char, y: char, other: Set<char>) -> bool {
    (spec_s("s tu~"@).contains(x) && other.contains(y)) || (other.contains(x) && spec_s(
        "s tu~"@,
    ).contains(y))
}

/// Whether the pair `x y`, where 8.4.41 (ṣṭunā ṣṭuḥ) could apply, is left as it is: by 8.4.43
/// (na padāntāṭ ṭor anām) for a dental before `z`, or because the sound to replace has no
/// retroflex.
pub open spec fn swu_pair_kept(x: char, y: char) -> bool {
    (spec_s("tu~"@).contains(x) && y == 'z') || (if spec_s("s tu~"@).contains(x) {
        spec_stu_to_swu(x) is None
    } else {
        spec_stu_to_swu(y) is None
    })
}

/// Whether no pair of neighboring sounds of `t` is left for 8.4.41.
pub open spec fn no_swu_pair_left(t: Seq<char>) -> bool {
    forall|i: int|
        0 <= i && i + 1 < t.len() && #[trigger] stu_pair(t[i], t[i + 1], spec_s("z wu~"@))
            ==> swu_pair_kept(t[i], t[i + 1])
}

proof fn lemma_swu_quiet<FF, OO, II>(f: FF, o: OO, inner: II, x: Prakriya) where
    FF: Fn(&mut Prakriya, &str, usize) -> bool,
    OO: Fn(&mut Prakriya, &str, usize) -> bool,
    II: Fn(char, char) -> bool,

    requires
        forall|q: &mut Prakriya, t: &str, i: usize, b: bool|
            #[trigger] call_ensures(f, (q, t, i), b) ==> if i + 1 < t@.len() {
                call_ensures(inner, (t@[i as int], t@[i + 1]), b)
            } else {
                !b
            },
        forall|a: char, c: char, b: bool|
            #[trigger] call_ensures(inner, (a, c), b) ==> b == stu_pair(a, c, spec_s("z wu~"@)),
        forall|q: &mut Prakriya, t: &str, i: usize, c: bool|
            #[trigger] call_ensures(o, (q, t, i), c) ==> (i + 1 < t@.len() && !c ==> swu_pair_kept(
                t@[i as int],
                t@[i + 1],
            )),
        quiet_on(f, o, x),
    ensures
        no_swu_pair_left(concat_texts(x.terms_seq())),
{
    let (start, text) = choose|start: Prakriya, text: &str|
        #![trigger same_but_log(start, x), text@]
        same_but_log(start, x) && text@ == concat_texts(start.terms_seq()) && text@.len()
            <= usize::MAX && forall|i: usize|
            (i as int) < text@.len() ==> #[trigger] quiet_at(f, o, text, i, start);
    let t = text@;
    assert forall|i: int|
        0 <= i && i + 1 < t.len() && #[trigger] stu_pair(
            t[i],
            t[i + 1],
            spec_s("z wu~"@),
        ) implies swu_pair_kept(t[i], t[i + 1]) by {
        let iu = i as usize;
        assert(quiet_at(f, o, text, iu, start));
        let (q, b) = choose|q: &mut Prakriya, b: bool|
            same_but_log(start, *q) && #[trigger] call_ensures(f, (q, text, iu), b) && (b ==> exists|
                q2: &mut Prakriya,
            | same_but_log(start, *q2) && #[trigger] call_ensures(o, (q2, text, iu), false));
        assert(call_ensures(inner, (text@[iu as int], text@[iu + 1]), b));
        assert(call_ensures(inner, (t[i], t[i + 1]), b));
        let q2 = choose|q2: &mut Prakriya|
            same_but_log(start, *q2) && #[trigger] call_ensures(o, (q2, text, iu), false);
        assert(call_ensures(o, (q2, text, iu), false));
    }
}

/// Whether a sound of `s tu~` and a sound of `S cu~` or `z wu~` meet in the sounds `x` and `y`,
/// in either order.
pub open spec fn stu_contact(x: char, y: char) -> bool {
    let stu = spec_s("s tu~"@);
    let other = spec_s("S cu~"@).union(spec_s("z wu~"@));
    (stu.contains(x) && other.contains(y)) || (other.contains(x) && stu.contains(y))
}

/// Whether no two neighboring sounds of `t` are in `stu_contact`.
pub open spec fn no_stu_contact(t: Seq<char>) -> bool {
    forall|i: int| 0 <= i && i + 1 < t.len() ==> !#[trigger] stu_contact(t[i], t[i + 1])
}

/// Where 8.4.40 (stoḥ ścunā ścuḥ) looks: a sound of `s tu~` and one of `S cu~` side by side.
pub open spec fn scu_accepts() -> SoundAccepts {
    |xs: Seq<Seq<char>>, i: int| {
        let t = crate::char_view::joined(xs);
        let stu = spec_s("s tu~"@);
        let scu = spec_s("S cu~"@);
        0 <= i && i + 1 < t.len() && ((stu.contains(t[i]) && scu.contains(t[i + 1])) || (scu.contains(
            t[i],
        ) && stu.contains(t[i + 1])))
    }
}

/// What 8.4.40 puts: the sound of `s tu~` becomes palatal, unless `S` comes first (8.4.44).
pub open spec fn scu_rewrite() -> SoundRewrite {
    |xs: Seq<Seq<char>>, i: int| {
        let t = crate::char_view::joined(xs);
        if 0 <= i && i + 1 < t.len() && t[i] != 'S' {
            if spec_s("s tu~"@).contains(t[i]) {
                match spec_stu_to_scu(t[i]) {
                    Some(sub) => Some(crate::char_view::set_sound(xs, i, sub)),
                    None => None,
                }
            } else {
                match spec_stu_to_scu(t[i + 1]) {
                    Some(sub) => Some(crate::char_view::set_sound(xs, i + 1, sub)),
                    None => None,
                }
            }
        } else {
            None
        }
    }
}

/// Where 8.4.41 (ṣṭunā ṣṭuḥ) looks: a sound of `s tu~` and one of `z wu~` side by side.
pub open spec fn swu_accepts() -> SoundAccepts {
    |xs: Seq<Seq<char>>, i: int| {
        let t = crate::char_view::joined(xs);
        let stu = spec_s("s tu~"@);
        let swu = spec_s("z wu~"@);
        0 <= i && i + 1 < t.len() && ((stu.contains(t[i]) && swu.contains(t[i + 1])) || (swu.contains(
            t[i],
        ) && stu.contains(t[i + 1])))
    }
}

/// What 8.4.41 puts: the sound of `s tu~` becomes retroflex, unless a dental stands before `z`
/// (8.4.43).
pub open spec fn swu_rewrite() -> SoundRewrite {
    |xs: Seq<Seq<char>>, i: int| {
        let t = crate::char_view::joined(xs);
        if 0 <= i && i + 1 < t.len() && !(spec_s("tu~"@).contains(t[i]) && t[i + 1] == 'z') {
            if spec_s("s tu~"@).contains(t[i]) {
                match spec_stu_to_swu(t[i]) {
                    Some(sub) => Some(crate::char_view::set_sound(xs, i, sub)),
                    None => None,
                }
            } else {
                match spec_stu_to_swu(t[i + 1]) {
                    Some(sub) => Some(crate::char_view::set_sound(xs, i + 1, sub)),
                    None => None,
                }
            }
        } else {
            None
        }
    }
}

/// The texts of the terms `ts` after 8.4.40 and then 8.4.41, each applied until it changes
/// nothing; `None` where one does not settle.
pub open spec fn stu_texts(ts: Seq<Term>) -> Option<Seq<Seq<char>>> {
    crate::ac_sandhi::then_settle(
        crate::char_view::settle(scu_accepts(), scu_rewrite(), crate::char_view::term_texts(ts), 10),
        swu_accepts(),
        swu_rewrite(),
    )
}

/// Makes a sound of `s tu~` that meets a sound of `S cu~` palatal (8.4.40, except after `S` by
/// 8.4.44), then one that meets a sound of `z wu~` retroflex (8.4.41, except a dental before
/// `z` by 8.4.43). Returns whether both rules settled; where one keeps changing the text, it
/// stops there and returns false.
pub fn try_change_stu_to_parasavarna(p: &mut Prakriya) -> (done: bool)
    ensures
        same_shape(*old(p), *final(p)),
        done ==> no_swu_pair_left(concat_texts(final(p).terms_seq())),
        no_stu_contact(concat_texts(old(p).terms_seq())) ==> done && final(p).terms_seq() == old(
            p,
        ).terms_seq(),
        done == stu_texts(old(p).terms_seq()) is Some,
        done ==> crate::char_view::term_texts(final(p).terms_seq()) == stu_texts(old(p).terms_seq())->0
            && final(p).cfg() == old(p).cfg(),
        final(p).decisions() == old(p).decisions(),
{
    proof {
        lemma_stu_lists();
    }
    let scu = sounds::s("S cu~");
    let swu = sounds::s("z wu~");
    let stu = sounds::s("s tu~");
    let tu = sounds::s("tu~");
    let ghost p0 = *p;

    let o = |p: &mut Prakriya, text: &str, i: usize| -> (c: bool)
        ensures
            same_shape(*old(p), *final(p)),
            !c ==> same_but_log(*old(p), *final(p)),
            final(p).decisions() == old(p).decisions(),
            text@ == concat_texts(old(p).terms_seq()) && (i as int) < text@.len() ==> (c == (scu_rewrite())(
                crate::char_view::term_texts(old(p).terms_seq()),
                i as int,
            ) is Some) && (c ==> final(p).cfg() == old(p).cfg() && final(p).tag_set() == old(p).tag_set()
                && crate::char_view::term_texts(final(p).terms_seq()) == (scu_rewrite())(
                crate::char_view::term_texts(old(p).terms_seq()),
                i as int,
            )->0),
        {
            proof {
                crate::char_view::lemma_joined(p.terms_seq());
            }
            let n = text.unicode_len();
            if !(i < n && n - i > 1) {
                return false;
            }
            let x = text.get_char(i);
            let y = text.get_char(i + 1);
            if x == 'S' {
                p.step("8.4.44");
                false
            } else {
                if stu.contains_char(x) {
                    match stu_to_scu(x) {
                        Some(sub) => set_at(p, i, sub),
                        None => {
                            return false;
                        },
                    }
                } else {
                    match stu_to_scu(y) {
                        Some(sub) => set_at(p, i + 1, sub),
                        None => {
                            return false;
                        },
                    }
                }
                p.step("8.4.40");
                true
            }
        };
    let inner1 = |x: char, y: char| -> (b: bool)
        ensures
            b == ((stu@.contains(x) && scu@.contains(y)) || (scu@.contains(x) && stu@.contains(
                y,
            ))),
        {
            (stu.contains_char(x) && scu.contains_char(y)) || (scu.contains_char(x)
                && stu.contains_char(y))
        };
    let f1 = xy(inner1);
    proof {
        let t = concat_texts(p.terms_seq());
        if no_stu_contact(t) {
            assert forall|i: int, b: bool|
                0 <= i && i + 1 < t.len() && #[trigger] call_ensures(inner1, (t[i], t[i + 1]), b) implies !b by {
                assert(!stu_contact(t[i], t[i + 1]));
            }
            crate::char_view::lemma_xy_inert(f1, o, inner1, *p);
        }
    }
    let ghost x1 = *p;
    proof {
        assert forall|q: &mut Prakriya, t: &str, i: usize, b: bool|
            #[trigger] call_ensures(f1, (q, t, i), b) && same_shape(x1, *q) && q.cfg() == x1.cfg()
                && t@ == concat_texts(q.terms_seq()) && (i as int) < t@.len() implies same_but_log(
            *q,
            *final(q),
        ) && b == (scu_accepts())(crate::char_view::term_texts(q.terms_seq()), i as int) by {
            crate::char_view::lemma_joined(q.terms_seq());
            if i + 1 < t@.len() {
                assert(call_ensures(inner1, (t@[i as int], t@[i + 1]), b));
            }
        }
        assert forall|q: &mut Prakriya, t: &str, i: usize, c: bool|
            #[trigger] call_ensures(o, (q, t, i), c) && same_shape(x1, *q) && q.cfg() == x1.cfg()
                && t@ == concat_texts(q.terms_seq()) && (i as int) < t@.len() implies (c == (scu_rewrite())(
            crate::char_view::term_texts(q.terms_seq()),
            i as int,
        ) is Some) && (c ==> same_shape(*q, *final(q)) && final(q).cfg() == q.cfg()
            && final(q).tag_set() == q.tag_set() && crate::char_view::term_texts(final(q).terms_seq())
            == (scu_rewrite())(crate::char_view::term_texts(q.terms_seq()), i as int)->0) && (!c
            ==> same_but_log(*q, *final(q))) by {}
    }
    let r1 = char_rule(p, f1, o);
    proof {
        assert(crate::char_view::settle(scu_accepts(), scu_rewrite(), crate::char_view::term_texts(x1.terms_seq()), 10)
            == crate::char_view::settle(scu_accepts(), scu_rewrite(), crate::char_view::term_texts(x1.terms_seq()), 10));
    }
    if !r1 {
        return false;
    }
    let ghost p1 = *p;

    let inner = |x: char, y: char| -> (b: bool)
        ensures
            b == ((stu@.contains(x) && swu@.contains(y)) || (swu@.contains(x) && stu@.contains(
                y,
            ))),
        { (stu.contains_char(x) && swu.contains_char(y)) || (swu.contains_char(x) && stu.contains_char(y)) };
    let o = |p: &mut Prakriya, text: &str, i: usize| -> (c: bool)
        ensures
            same_shape(*old(p), *final(p)),
            !c ==> same_but_log(*old(p), *final(p)),
            i + 1 < text@.len() && !c ==> ((tu@.contains(text@[i as int]) && text@[i + 1] == 'z')
                || (if stu@.contains(text@[i as int]) {
                spec_stu_to_swu(text@[i as int]) is None
            } else {
                spec_stu_to_swu(text@[i + 1]) is None
            })),
            final(p).decisions() == old(p).decisions(),
            text@ == concat_texts(old(p).terms_seq()) && (i as int) < text@.len() ==> (c == (swu_rewrite())(
                crate::char_view::term_texts(old(p).terms_seq()),
                i as int,
            ) is Some) && (c ==> final(p).cfg() == old(p).cfg() && final(p).tag_set() == old(p).tag_set()
                && crate::char_view::term_texts(final(p).terms_seq()) == (swu_rewrite())(
                crate::char_view::term_texts(old(p).terms_seq()),
                i as int,
            )->0),
        {
            proof {
                crate::char_view::lemma_joined(p.terms_seq());
            }
            let n = text.unicode_len();
            if !(i < n && n - i > 1) {
                return false;
            }
            let x = text.get_char(i);
            let y = text.get_char(i + 1);
            if tu.contains_char(x) && y == 'z' {
                p.step("8.4.43");
                false
            } else {
                if stu.contains_char(x) {
                    match stu_to_swu(x) {
                        Some(sub) => set_at(p, i, sub),
                        None => {
                            return false;
                        },
                    }
                } else {
                    match stu_to_swu(y) {
                        Some(sub) => set_at(p, i + 1, sub),
                        None => {
                            return false;
                        },
                    }
                }
                p.step("8.4.41");
                true
            }
        };
    let f = xy(inner);
    proof {
        let t = concat_texts(p.terms_seq());
        if no_stu_contact(concat_texts(p0.terms_seq())) {
            assert forall|i: int, b: bool|
                0 <= i && i + 1 < t.len() && #[trigger] call_ensures(inner, (t[i], t[i + 1]), b) implies !b by {
                assert(!stu_contact(t[i], t[i + 1]));
            }
            crate::char_view::lemma_xy_inert(f, o, inner, *p);
        }
    }
    let ghost x2 = *p;
    proof {
        assert forall|q: &mut Prakriya, t: &str, i: usize, b: bool|
            #[trigger] call_ensures(f, (q, t, i), b) && same_shape(x2, *q) && q.cfg() == x2.cfg()
                && t@ == concat_texts(q.terms_seq()) && (i as int) < t@.len() implies same_but_log(
            *q,
            *final(q),
        ) && b == (swu_accepts())(crate::char_view::term_texts(q.terms_seq()), i as int) by {
            crate::char_view::lemma_joined(q.terms_seq());
            if i + 1 < t@.len() {
                assert(call_ensures(inner, (t@[i as int], t@[i + 1]), b));
            }
        }
        assert forall|q: &mut Prakriya, t: &str, i: usize, c: bool|
            #[trigger] call_ensures(o, (q, t, i), c) && same_shape(x2, *q) && q.cfg() == x2.cfg()
                && t@ == concat_texts(q.terms_seq()) && (i as int) < t@.len() implies (c == (swu_rewrite())(
            crate::char_view::term_texts(q.terms_seq()),
            i as int,
        ) is Some) && (c ==> same_shape(*q, *final(q)) && final(q).cfg() == q.cfg()
            && final(q).tag_set() == q.tag_set() && crate::char_view::term_texts(final(q).terms_seq())
            == (swu_rewrite())(crate::char_view::term_texts(q.terms_seq()), i as int)->0) && (!c
            ==> same_but_log(*q, *final(q))) by {}
    }
    let done = char_rule(p, f, o);
    proof {
        assert(crate::char_view::settle(swu_accepts(), swu_rewrite(), crate::char_view::term_texts(x2.terms_seq()), 10)
            == crate::char_view::settle(swu_accepts(), swu_rewrite(), crate::char_view::term_texts(x2.terms_seq()), 10));
    }

    proof {
        lemma_same_shape_trans(p0, p1, *p);
        if done {
            lemma_swu_quiet(f, o, inner, *p);
        }
    }
    done
}

/// Whether no `m` or `n` of `t` is followed by a sound of `Jal`.
pub open spec fn no_mn_before_jhal(t: Seq<char>) -> bool {
    forall|i: int|
        0 <= i && i + 1 < t.len() && (#[trigger] t[i] == 'm' || t[i] == 'n') ==> !jhal().contains(
            t[i + 1],
        )
}

pub(crate) proof fn lemma_always_changes_quiet<FF, OO, II>(f: FF, o: OO, inner: II, x: Prakriya) where
    FF: Fn(&mut Prakriya, &str, usize) -> bool,
    OO: Fn(&mut Prakriya, &str, usize) -> bool,
    II: Fn(char, char) -> bool,

    requires
        forall|q: &mut Prakriya, t: &str, i: usize, b: bool|
            #[trigger] call_ensures(f, (q, t, i), b) ==> if i + 1 < t@.len() {
                call_ensures(inner, (t@[i as int], t@[i + 1]), b)
            } else {
                !b
            },
        forall|q: &mut Prakriya, t: &str, i: usize, c: bool|
            #[trigger] call_ensures(o, (q, t, i), c) ==> c,
        quiet_on(f, o, x),
    ensures
        forall|i: int|
            0 <= i && i + 1 < concat_texts(x.terms_seq()).len() ==> #[trigger] call_ensures(
                inner,
                (concat_texts(x.terms_seq())[i], concat_texts(x.terms_seq())[i + 1]),
                false,
            ),
{
    let (start, text) = choose|start: Prakriya, text: &str|
        #![trigger same_but_log(start, x), text@]
        same_but_log(start, x) && text@ == concat_texts(start.terms_seq()) && text@.len()
            <= usize::MAX && forall|i: usize|
            (i as int) < text@.len() ==> #[trigger] quiet_at(f, o, text, i, start);
    let t = text@;
    assert forall|i: int| 0 <= i && i + 1 < t.len() implies #[trigger] call_ensures(
        inner,
        (t[i], t[i + 1]),
        false,
    ) by {
        let iu = i as usize;
        assert(quiet_at(f, o, text, iu, start));
        let (q, b) = choose|q: &mut Prakriya, b: bool|
            same_but_log(start, *q) && #[trigger] call_ensures(f, (q, text, iu), b) && (b ==> exists|
                q2: &mut Prakriya,
            | same_but_log(start, *q2) && #[trigger] call_ensures(o, (q2, text, iu), false));
        assert(call_ensures(inner, (text@[iu as int], text@[iu + 1]), b));
        if b {
            let q2 = choose|q2: &mut Prakriya|
                same_but_log(start, *q2) && #[trigger] call_ensures(o, (q2, text, iu), false);
            assert(call_ensures(o, (q2, text, iu), false));
        }
    }
}

/// Where 8.3.24 (naś cāpadāntasya jhali) looks: `m` or `n` before a sound of `Jal`.
pub open spec fn mn_accepts() -> SoundAccepts {
    |xs: Seq<Seq<char>>, i: int| {
        let t = crate::char_view::joined(xs);
        0 <= i && i + 1 < t.len() && (t[i] == 'm' || t[i] == 'n') && jhal().contains(t[i + 1])
    }
}

/// What 8.3.24 puts: the anusvara.
pub open spec fn anusvara_rewrite() -> SoundRewrite {
    |xs: Seq<Seq<char>>, i: int| Some(crate::char_view::set_sound(xs, i, seq!['M']))
}

/// The texts of the terms `ts` after 8.3.24 applied until it changes nothing; `None` where it
/// does not settle.
pub open spec fn mn_texts(ts: Seq<Term>) -> Option<Seq<Seq<char>>> {
    crate::char_view::settle(mn_accepts(), anusvara_rewrite(), crate::char_view::term_texts(ts), 10)
}

/// Converts `m` and `n` to the anusvara when a consonant of `Jal` follows (8.3.24).
/// Returns whether the rule settled; where it keeps changing the text, it stops there and
/// returns false.
pub fn try_mn_to_anusvara(p: &mut Prakriya) -> (done: bool)
    ensures
        same_shape(*old(p), *final(p)),
        done ==> no_mn_before_jhal(concat_texts(final(p).terms_seq())),
        no_mn_before_jhal(concat_texts(old(p).terms_seq())) ==> done && final(p).terms_seq()
            == old(p).terms_seq(),
        done == mn_texts(old(p).terms_seq()) is Some,
        done ==> crate::char_view::term_texts(final(p).terms_seq()) == mn_texts(old(p).terms_seq())->0
            && final(p).cfg() == old(p).cfg(),
        final(p).decisions() == old(p).decisions(),
{
    proof {
        lemma_jhal_lists();
    }
    let jhal_set = sounds::s("Jal");
    let inner = |x: char, y: char| -> (b: bool)
        ensures
            b == ((x == 'm' || x == 'n') && jhal_set@.contains(y)),
        { (x == 'm' || x == 'n') && jhal_set.contains_char(y) };
    let o = |p: &mut Prakriya, text: &str, i: usize| -> (c: bool)
        ensures
            same_shape(*old(p), *final(p)),
            c,
            final(p).decisions() == old(p).decisions(),
            text@ == concat_texts(old(p).terms_seq()) && (i as int) < text@.len() ==> (c == (anusvara_rewrite())(
                crate::char_view::term_texts(old(p).terms_seq()),
                i as int,
            ) is Some) && (c ==> final(p).cfg() == old(p).cfg() && final(p).tag_set() == old(p).tag_set()
                && crate::char_view::term_texts(final(p).terms_seq()) == (anusvara_rewrite())(
                crate::char_view::term_texts(old(p).terms_seq()),
                i as int,
            )->0),
        {
            proof {
                crate::char_view::lemma_joined(p.terms_seq());
                reveal_strlit("M");
                assert("M"@ =~= seq!['M']);
            }
            set_at(p, i, "M");
            p.step("8.3.24");
            true
        };
    let f = xy(inner);
    proof {
        if no_mn_before_jhal(concat_texts(p.terms_seq())) {
            let t = concat_texts(p.terms_seq());
            assert forall|i: int, b: bool|
                0 <= i && i + 1 < t.len() && #[trigger] call_ensures(inner, (t[i], t[i + 1]), b) implies !b by {
                if t[i] == 'm' || t[i] == 'n' {
                    assert(!jhal().contains(t[i + 1]));
                }
            }
            crate::char_view::lemma_xy_inert(f, o, inner, *p);
        }
    }
    let ghost x1 = *p;
    proof {
        assert forall|q: &mut Prakriya, t: &str, i: usize, b: bool|
            #[trigger] call_ensures(f, (q, t, i), b) && same_shape(x1, *q) && q.cfg() == x1.cfg()
                && t@ == concat_texts(q.terms_seq()) && (i as int) < t@.len() implies same_but_log(
            *q,
            *final(q),
        ) && b == (mn_accepts())(crate::char_view::term_texts(q.terms_seq()), i as int) by {
            crate::char_view::lemma_joined(q.terms_seq());
            if i + 1 < t@.len() {
                assert(call_ensures(inner, (t@[i as int], t@[i + 1]), b));
            }
        }
        assert forall|q: &mut Prakriya, t: &str, i: usize, c: bool|
            #[trigger] call_ensures(o, (q, t, i), c) && same_shape(x1, *q) && q.cfg() == x1.cfg()
                && t@ == concat_texts(q.terms_seq()) && (i as int) < t@.len() implies (c == (anusvara_rewrite())(
            crate::char_view::term_texts(q.terms_seq()),
            i as int,
        ) is Some) && (c ==> same_shape(*q, *final(q)) && final(q).cfg() == q.cfg()
            && final(q).tag_set() == q.tag_set() && crate::char_view::term_texts(final(q).terms_seq())
            == (anusvara_rewrite())(crate::char_view::term_texts(q.terms_seq()), i as int)->0) && (!c
            ==> same_but_log(*q, *final(q))) by {}
    }
    let done = char_rule(p, f, o);
    proof {
        assert(crate::char_view::settle(mn_accepts(), anusvara_rewrite(), crate::char_view::term_texts(x1.terms_seq()), 10)
            == crate::char_view::settle(mn_accepts(), anusvara_rewrite(), crate::char_view::term_texts(x1.terms_seq()), 10));
    }

    proof {
        if done {
            lemma_always_changes_quiet(f, o, inner, *p);
            let t = concat_texts(p.terms_seq());
            assert forall|i: int|
                0 <= i && i + 1 < t.len() && (#[trigger] t[i] == 'm' || t[i] == 'n') implies !jhal().contains(
                t[i + 1],
            ) by {
                assert(call_ensures(inner, (t[i], t[i + 1]), false));
            }
        }
    }
    done
}

/// Whether a `n` at `i` of `t` is left for 8.4.2, where `i` is not the last index.
pub open spec fn natva_left(t: Seq<char>, i: int) -> bool {
    0 <= i && i + 1 < t.len() && t[i] == 'n' && natva_cause_before(t, i)
}

/// Whether the dhatu that starts `ts` blocks natva: kzuBa~ before SnA or SAnac, or tfpa~ before
/// Snu.
pub open spec fn natva_blocked(ts: Seq<Term>) -> bool {
    exists|i: int|
        crate::abhyasasya::is_first_tagged(ts, T::Dhatu, i) && ((ts[i].u_is("kzuBa~"@) && i + 1
            < ts.len() && (ts[i + 1].u_is("SnA"@) || ts[i + 1].u_is("SAnac"@))) || (ts[i].u_is(
            "tfpa~"@,
        ) && i + 1 < ts.len() && ts[i + 1].u_is("Snu"@)))
}

fn is_kzubh_block(t: &Term) -> (b: bool)
    ensures
        b == (t.u_is("SnA"@) || t.u_is("SAnac"@)),
{
    t.has_u("SnA") || t.has_u("SAnac")
}

fn is_snu(t: &Term) -> (b: bool)
    ensures
        b == t.u_is("Snu"@),
{
    t.has_u("Snu")
}

/// Where 8.4.2 looks: an `n` with a cause of natva before it.
pub open spec fn natva_accepts() -> SoundAccepts {
    |xs: Seq<Seq<char>>, i: int| {
        let t = crate::char_view::joined(xs);
        0 <= i < t.len() && t[i] == 'n' && natva_cause_before(t, i)
    }
}

/// What 8.4.2 puts: `R`, except at the end of the text (8.4.37).
pub open spec fn natva_rewrite() -> SoundRewrite {
    |xs: Seq<Seq<char>>, i: int| if 0 <= i && i + 1 < crate::char_view::joined(xs).len() {
        Some(crate::char_view::set_sound(xs, i, seq!['R']))
    } else {
        None
    }
}

/// The texts of the terms `ts` after natva: unchanged where the dhatu blocks it, else 8.4.2
/// applied until it changes nothing; `None` where it does not settle.
pub open spec fn natva_texts(ts: Seq<Term>) -> Option<Seq<Seq<char>>> {
    if natva_blocked(ts) {
        Some(crate::char_view::term_texts(ts))
    } else {
        crate::char_view::settle(natva_accepts(), natva_rewrite(), crate::char_view::term_texts(ts), 10)
    }
}

/// Changes `n` to `R` after `r`, `z`, `f` or `F`, with only sounds of `aw ku~ pu~ M` between
/// them (8.4.1 - 8.4.2), but not at the end of the text (8.4.37), unless the dhatu blocks it.
/// Returns whether the rule settled or was blocked; where it keeps changing the text, it stops
/// there and returns false.
pub fn try_natva(p: &mut Prakriya) -> (done: bool)
    ensures
        same_shape(*old(p), *final(p)),
        natva_blocked(old(p).terms_seq()) ==> *final(p) == *old(p),
        done && !natva_blocked(old(p).terms_seq()) ==> forall|i: int|
            !natva_left(concat_texts(final(p).terms_seq()), i),
        (forall|i: int| !natva_left(concat_texts(old(p).terms_seq()), i)) ==> done
            && final(p).terms_seq() == old(p).terms_seq(),
        done == natva_texts(old(p).terms_seq()) is Some,
        done ==> crate::char_view::term_texts(final(p).terms_seq()) == natva_texts(
            old(p).terms_seq(),
        )->0 && final(p).cfg() == old(p).cfg(),
        final(p).decisions() == old(p).decisions(),
{
    let n = p.terms().len();
    if let Some(i) = p.find_first(T::Dhatu) {
        assert(i < n);
        let dhatu = &p.terms()[i];
        if dhatu.has_u("kzuBa~") && p.has(i + 1, is_kzubh_block) || dhatu.has_u("tfpa~") && p.has(
            i + 1,
            is_snu,
        ) {
            assert(crate::abhyasasya::is_first_tagged(p.terms_seq(), T::Dhatu, i as int));
            return true;
        }
        proof {
            let ts = p.terms_seq();
            assert forall|j: int| !(crate::abhyasasya::is_first_tagged(ts, T::Dhatu, j) && ((ts[j].u_is(
                "kzuBa~"@,
            ) && j + 1 < ts.len() && (ts[j + 1].u_is("SnA"@) || ts[j + 1].u_is("SAnac"@))) || (
            ts[j].u_is("tfpa~"@) && j + 1 < ts.len() && ts[j + 1].u_is("Snu"@)))) by {
                if crate::abhyasasya::is_first_tagged(ts, T::Dhatu, j) {
                    assert(j == i);
                }
            }
        }
    }
    let f = |p: &mut Prakriya, text: &str, i: usize| -> (b: bool)
        ensures
            *final(p) == *old(p),
            b == (i < text@.len() && text@[i as int] == 'n' && natva_cause_before(
                text@,
                i as int,
            )),
        { allows_natva(text, i) };
    let o = |p: &mut Prakriya, text: &str, i: usize| -> (c: bool)
        ensures
            same_shape(*old(p), *final(p)),
            !c ==> same_but_log(*old(p), *final(p)),
            i + 1 < text@.len() ==> c,
            i + 1 >= text@.len() ==> !c,
            final(p).decisions() == old(p).decisions(),
            text@ == concat_texts(old(p).terms_seq()) && (i as int) < text@.len() ==> (c == (natva_rewrite())(
                crate::char_view::term_texts(old(p).terms_seq()),
                i as int,
            ) is Some) && (c ==> final(p).cfg() == old(p).cfg() && final(p).tag_set() == old(p).tag_set()
                && crate::char_view::term_texts(final(p).terms_seq()) == (natva_rewrite())(
                crate::char_view::term_texts(old(p).terms_seq()),
                i as int,
            )->0),
        {
            proof {
                crate::char_view::lemma_joined(p.terms_seq());
                reveal_strlit("R");
                assert("R"@ =~= seq!['R']);
            }
            let n = text.unicode_len();
            if i >= n || n - i <= 1 {
                p.step("8.4.37");
                false
            } else {
                // TODO: track loctaion of rzfF for better rule logging.
                set_at(p, i, "R");
                p.step("8.4.2");
                true
            }
        };
    proof {
        let t = concat_texts(p.terms_seq());
        if forall|i: int| !natva_left(t, i) {
            assert forall|text: &str, i: usize|
                text@ == t && (i as int) < text@.len() implies #[trigger] crate::char_view::inert_at(
                f,
                o,
                text,
                i,
                *p,
            ) by {
                assert(!natva_left(t, i as int));
            }
        }
    }
    let ghost x1 = *p;
    proof {
        assert forall|q: &mut Prakriya, t: &str, i: usize, b: bool|
            #[trigger] call_ensures(f, (q, t, i), b) && same_shape(x1, *q) && q.cfg() == x1.cfg()
                && t@ == concat_texts(q.terms_seq()) && (i as int) < t@.len() implies same_but_log(
            *q,
            *final(q),
        ) && b == (natva_accepts())(crate::char_view::term_texts(q.terms_seq()), i as int) by {
            crate::char_view::lemma_joined(q.terms_seq());
        }
        assert forall|q: &mut Prakriya, t: &str, i: usize, c: bool|
            #[trigger] call_ensures(o, (q, t, i), c) && same_shape(x1, *q) && q.cfg() == x1.cfg()
                && t@ == concat_texts(q.terms_seq()) && (i as int) < t@.len() implies (c == (natva_rewrite())(
            crate::char_view::term_texts(q.terms_seq()),
            i as int,
        ) is Some) && (c ==> same_shape(*q, *final(q)) && final(q).cfg() == q.cfg()
            && final(q).tag_set() == q.tag_set() && crate::char_view::term_texts(final(q).terms_seq())
            == (natva_rewrite())(crate::char_view::term_texts(q.terms_seq()), i as int)->0) && (!c
            ==> same_but_log(*q, *final(q))) by {}
    }
    let done = char_rule(p, f, o);
    proof {
        assert(crate::char_view::settle(natva_accepts(), natva_rewrite(), crate::char_view::term_texts(x1.terms_seq()), 10)
            == crate::char_view::settle(natva_accepts(), natva_rewrite(), crate::char_view::term_texts(x1.terms_seq()), 10));
    }

    proof {
        if done {
            lemma_natva_quiet(f, o, *p);
        }
    }
    done
}

proof fn lemma_natva_quiet<FF, OO>(f: FF, o: OO, x: Prakriya) where
    FF: Fn(&mut Prakriya, &str, usize) -> bool,
    OO: Fn(&mut Prakriya, &str, usize) -> bool,

    requires
        forall|q: &mut Prakriya, t: &str, i: usize, b: bool|
            #[trigger] call_ensures(f, (q, t, i), b) ==> b == (i < t@.len() && t@[i as int] == 'n'
                && natva_cause_before(t@, i as int)),
        forall|q: &mut Prakriya, t: &str, i: usize, c: bool|
            #[trigger] call_ensures(o, (q, t, i), c) ==> (i + 1 < t@.len() ==> c),
        quiet_on(f, o, x),
    ensures
        forall|i: int| !natva_left(concat_texts(x.terms_seq()), i),
{
    let (start, text) = choose|start: Prakriya, text: &str|
        #![trigger same_but_log(start, x), text@]
        same_but_log(start, x) && text@ == concat_texts(start.terms_seq()) && text@.len()
            <= usize::MAX && forall|i: usize|
            (i as int) < text@.len() ==> #[trigger] quiet_at(f, o, text, i, start);
    let t = text@;
    assert forall|i: int| !natva_left(t, i) by {
        if natva_left(t, i) {
            let iu = i as usize;
            assert(quiet_at(f, o, text, iu, start));
            let (q, b) = choose|q: &mut Prakriya, b: bool|
                same_but_log(start, *q) && #[trigger] call_ensures(f, (q, text, iu), b) && (b
                    ==> exists|q2: &mut Prakriya|
                    same_but_log(start, *q2) && #[trigger] call_ensures(o, (q2, text, iu), false));
            let q2 = choose|q2: &mut Prakriya|
                same_but_log(start, *q2) && #[trigger] call_ensures(o, (q2, text, iu), false);
            assert(call_ensures(o, (q2, text, iu), false));
        }
    }
}

/// Whether `t` ends in `ru~` or `r`, which 8.3.15 (kharavasānayor visarjanīyaḥ) turns into the
/// visarga at the end of a pada.
pub open spec fn has_ru(t: Seq<char>) -> bool {
    (3 <= t.len() && t.subrange(t.len() - 3, t.len() as int) == seq!['r', 'u', '~']) || (t.len()
        >= 1 && t.last() == 'r')
}

/// The text `t` with a final `ru~` or `r` replaced by the visarga `H` (8.3.15).
pub open spec fn ra_to_visarga(t: Seq<char>) -> Seq<char> {
    if 3 <= t.len() && t.subrange(t.len() - 3, t.len() as int) == seq!['r', 'u', '~'] {
        t.subrange(0, t.len() - 3) + seq!['H']
    } else if t.len() >= 1 && t.last() == 'r' {
        t.subrange(0, t.len() - 1) + seq!['H']
    } else {
        t
    }
}

/// The term `t` after `try_ra_lopa`, where `padanta` says whether it ends the pada.
pub open spec fn ra_lopa_result(t: Term, u: Term, padanta: bool) -> bool {
    if has_ru(t.text@) && padanta {
        crate::operations::same_but_text(t, u) && u.text@ == ra_to_visarga(t.text@)
    } else {
        u == t
    }
}

fn ends_in_ru(t: &Term) -> (b: bool)
    ensures
        b == has_ru(t.text@),
{
    proof {
        reveal_strlit("ru~");
        assert("ru~"@ =~= seq!['r', 'u', '~']);
    }
    strings::ends_with(t.text.as_str(), "ru~") || t.has_antya('r')
}

fn not_empty(t: &Term) -> (b: bool)
    ensures
        b == (t.text@.len() > 0),
{
    !crate::filters::empty(t)
}

/// Returns `text` with a final `ru~` or `r` replaced by the visarga, where it has one.
fn visarga_text(text: &str) -> (r: Option<String>)
    ensures
        r is Some <==> has_ru(text@),
        r matches Some(x) ==> x@ == ra_to_visarga(text@),
        r is None ==> ra_to_visarga(text@) == text@,
{
    let len = text.unicode_len();
    let visarga = strings::char_string('H');
    if len >= 3 && text.get_char(len - 3) == 'r' && text.get_char(len - 2) == 'u' && text.get_char(
        len - 1,
    ) == '~' {
        assert(text@.subrange(len - 3, len as int) =~= seq!['r', 'u', '~']);
        let prefix = strings::substring(text, 0, len - 3);
        Some(strings::concat(prefix.as_str(), visarga.as_str()))
    } else {
        assert(!(3 <= text@.len() && text@.subrange(len - 3, len as int) == seq!['r', 'u', '~']))
            by {
            if 3 <= text@.len() && text@.subrange(len - 3, len as int) == seq!['r', 'u', '~'] {
                assert(text@.subrange(len - 3, len as int)[0] == text@[len - 3]);
                assert(text@.subrange(len - 3, len as int)[1] == text@[len - 2]);
                assert(text@.subrange(len - 3, len as int)[2] == text@[len - 1]);
            }
        }
        if len >= 1 && text.get_char(len - 1) == 'r' {
            let prefix = strings::substring(text, 0, len - 1);
            Some(strings::concat(prefix.as_str(), visarga.as_str()))
        } else {
            None
        }
    }
}

/// Applies 8.3.15 to term `i`, if there is one: `op_term` with `visarga_text`.
fn apply_visarga(p: &mut Prakriya, i: usize) -> (r: bool)
    ensures
        r == (i < old(p).terms_seq().len()),
        !r ==> *final(p) == *old(p),
        r ==> crate::operators::term_rule_applied(
            *old(p),
            *final(p),
            "8.3.15",
            i as int,
            ra_to_visarga(old(p).terms_seq()[i as int].text@),
        ),
{
    let op = |t: &mut Term|
        ensures
            final(t).text@ == ra_to_visarga(old(t).text@),
            crate::operations::same_but_text(*old(t), *final(t)),
        {
            let new_text = visarga_text(t.text.as_str());
            match new_text {
                Some(x) => {
                    t.text = x;
                },
                None => {},
            }
        };
    p.op_term("8.3.15", i, op)
}

/// Replaces a final `ru~` or `r` of a term at the end of the pada with the visarga (8.3.15).
pub fn try_ra_lopa(p: &mut Prakriya)
    ensures
        Prakriya::rewrote(*old(p), *final(p)),
        final(p).terms_seq().len() == old(p).terms_seq().len(),
        forall|i: int|
            0 <= i < old(p).terms_seq().len() ==> ra_lopa_result(
                old(p).terms_seq()[i],
                #[trigger] final(p).terms_seq()[i],
                next_nonempty(old(p).terms_seq(), i + 1) == -1,
            ),
{
    proof {
        crate::prakriya::lemma_rewrote_refl(*p);
    }
    let ghost ts = p.terms_seq();
    let n = p.terms().len();
    let mut i: usize = 0;
    while i < n
        invariant
            i <= n,
            n == ts.len(),
            ts == old(p).terms_seq(),
            p.terms_seq().len() == n,
            Prakriya::rewrote(*old(p), *p),
            forall|j: int|
                0 <= j < i ==> ra_lopa_result(
                    ts[j],
                    #[trigger] p.terms_seq()[j],
                    next_nonempty(ts, j + 1) == -1,
                ),
            forall|j: int| i <= j < n ==> #[trigger] p.terms_seq()[j] == ts[j],
        decreases n - i,
    {
        let ghost before = *p;
        let is_padanta = p.find_next_where(i, not_empty).is_none();
        proof {
            let cur = p.terms_seq();
            assert forall|k: int| i < k < n implies cur[k] == ts[k] by {}
            if is_padanta {
                assert forall|k: int| i + 1 <= k < ts.len() implies (#[trigger] ts[k]).text@.len()
                    == 0 by {
                    assert(cur[k] == ts[k]);
                }
                lemma_next_nonempty_none(ts, i + 1);
            } else {
                let k = choose|k: int|
                    i < k < cur.len() && call_ensures(not_empty, (&cur[k],), true);
                assert(ts[k].text@.len() > 0);
                assert(next_nonempty(ts, i + 1) != -1) by {
                    if next_nonempty(ts, i + 1) == -1 {
                        lemma_next_nonempty_none_means_empty(ts, i + 1, k);
                    }
                }
            }
        }
        if p.has(i, ends_in_ru) && is_padanta {
            apply_visarga(p, i);
        }
        proof {
            crate::prakriya::lemma_rewrote_refl(before);
            crate::prakriya::lemma_rewrote_trans(*old(p), before, *p);
        }
        i = i + 1;
    }
}

proof fn lemma_next_nonempty_none_means_empty(ts: Seq<Term>, j: int, k: int)
    requires
        0 <= j <= k < ts.len(),
        next_nonempty(ts, j) == -1,
    ensures
        ts[k].text@.len() == 0,
    decreases k - j,
{
    if j < k {
        lemma_next_nonempty_none_means_empty(ts, j + 1, k);
    }
}

/// Whether `i` is the index of the last term of `ts` that has `tag`.
pub open spec fn is_last_tagged(ts: Seq<Term>, tag: T, i: int) -> bool {
    &&& 0 <= i < ts.len()
    &&& ts[i].tagged(tag)
    &&& forall|j: int| i < j < ts.len() ==> !(#[trigger] ts[j]).tagged(tag)
}

/// Whether 8.2.7 (nalopaḥ prātipadikāntasya) or 8.2.8 (na ṅisambuddhyoḥ) is in question for
/// the last sup at `i`: the stem before it is a pratipadika that ends in `n`, and the sup has
/// no text.
pub open spec fn na_lopa_applies(ts: Seq<Term>, i: int) -> bool {
    &&& 1 <= i
    &&& ts[i - 1].text@.len() > 0
    &&& ts[i - 1].text@.last() == 'n'
    &&& ts[i - 1].tagged(T::Pratipadika)
    &&& ts[i].text@.len() == 0
}

/// Whether 8.2.8 blocks the lopa: the sup is a sambuddhi or `Ni`.
pub open spec fn na_lopa_blocked(t: Term) -> bool {
    t.tagged(T::Sambuddhi) || t.u_is("Ni"@)
}

fn ends_in_n_pratipadika(t: &Term) -> (b: bool)
    ensures
        b == (t.text@.len() > 0 && t.text@.last() == 'n' && t.tagged(T::Pratipadika)),
{
    t.has_antya('n') && t.has_tag(T::Pratipadika)
}

fn is_sambuddhi_or_ni(t: &Term) -> (b: bool)
    ensures
        b == na_lopa_blocked(*t),
{
    t.has_tag(T::Sambuddhi) || t.has_u("Ni")
}

/// Deletes the final `n` of a pratipadika before a sup that has no text (8.2.7), except before
/// a sambuddhi or `Ni` (8.2.8). Example: rAjan + Bis -> rAjaBis.
pub fn try_na_lopa(p: &mut Prakriya)
    requires
        forall|i: int| is_last_tagged(old(p).terms_seq(), T::Sup, i) ==> i >= 1,
    ensures
        (forall|i: int|
            is_last_tagged(old(p).terms_seq(), T::Sup, i) ==> !na_lopa_applies(
                old(p).terms_seq(),
                i,
            )) ==> *final(p) == *old(p),
        forall|i: int|
            is_last_tagged(old(p).terms_seq(), T::Sup, i) && na_lopa_applies(old(p).terms_seq(), i)
                ==> if na_lopa_blocked(old(p).terms_seq()[i]) {
                Prakriya::stepped(*old(p), *final(p), "8.2.8")
            } else {
                crate::operators::term_rule_applied(
                    *old(p),
                    *final(p),
                    "8.2.7",
                    i - 1,
                    crate::operations::replace_antya(old(p).terms_seq()[i - 1].text@, ""@),
                )
            },
{
    let ghost ts = p.terms_seq();
    let i = match p.find_last(T::Sup) {
        Some(i) => i,
        None => {
            return;
        },
    };
    assert(is_last_tagged(ts, T::Sup, i as int));
    assert forall|j: int| is_last_tagged(ts, T::Sup, j) implies j == i by {}
    let i_anga = i - 1;
    if p.has(i_anga, ends_in_n_pratipadika) && p.has(i, crate::filters::empty) {
        assert(na_lopa_applies(ts, i as int));
        if p.has(i, is_sambuddhi_or_ni) {
            p.step("8.2.8");
        } else {
            crate::operators::term_antya(p, "8.2.7", i_anga, "");
        }
    }
}

/// The sounds of the pratyahara `aR`.
pub open spec fn an() -> Set<char> {
    spec_s("aR"@)
}

proof fn lemma_an()
    ensures
        valid_sound_list("aR"@),
        forall|c: char| an().contains(c) ==> spec_to_dirgha(c) is Some,
{
    reveal_strlit("aR");
    lemma_one_word("aR"@);
    reveal_with_fuel(crate::sounds::sutra_with, 2);
    reveal_with_fuel(crate::sounds::sutra_ending_in, 2);
    reveal_with_fuel(crate::sounds::index_from, 2);
    let w = crate::sounds::words("aR"@)[0];
    assert(w == "aR"@);
    assert(crate::sounds::sutra_with('a', 0) == 0);
    assert(crate::sounds::sutra_ending_in('R', 0) == 0);
    assert forall|c: char| an().contains(c) implies spec_to_dirgha(c) is Some by {
        let k = choose|k: int|
            0 <= k < crate::sounds::words("aR"@).len() && #[trigger] crate::sounds::word_sounds(
                crate::sounds::words("aR"@)[k],
            ).contains(c);
        assert(k == 0);
        assert(crate::sounds::word_sounds(w).contains(c));
        let (kk, j) = choose|kk: int, j: int|
            0 <= kk <= 0 && 0 <= j < crate::sounds::shiva_sutras()[kk].0.len() && (kk > 0 || j >= 0)
                && #[trigger] crate::sounds::sound_or_long_at(kk, j, c);
        assert(kk == 0);
    }
}

/// The text of the term `x` after 8.3.13 (ḍho ḍhe lopaḥ) before the term `y`, with the
/// lengthening of 6.3.111 (ḍhralope pūrvasya dīrgho 'ṇaḥ) or 6.3.112 (sahivahor od avarṇasya).
pub open spec fn dha_lopa_text(x: Term, y: Term) -> Seq<char> {
    if x.text@.len() > 0 && x.text@.last() == 'Q' && y.text@.len() > 0 && y.text@[0] == 'Q' {
        let x1 = replace_antya(x.text@, ""@);
        if x1.len() > 0 && an().contains(x1.last()) {
            if x.u_is("zaha~\\"@) || x.u_is("va\\ha~^"@) {
                replace_antya(x1, "o"@)
            } else {
                replace_antya(x1, seq![spec_to_dirgha(x1.last())->0])
            }
        } else {
            x1
        }
    } else {
        x.text@
    }
}

/// Whether term `i` of `us` is term `i` of `ts` after `try_dha_lopa`: changed by
/// `dha_lopa_text` where a later term has text.
pub open spec fn dha_lopa_done(ts: Seq<Term>, us: Seq<Term>, i: int) -> bool {
    let n = next_nonempty(ts, i + 1);
    &&& crate::operations::same_but_text(ts[i], us[i])
    &&& us[i].text@ == if n == -1 {
        ts[i].text@
    } else {
        dha_lopa_text(ts[i], ts[n])
    }
}

fn ends_in_dha(t: &Term) -> (b: bool)
    ensures
        b == (t.text@.len() > 0 && t.text@.last() == 'Q'),
{
    t.has_antya('Q')
}

/// Applies 8.3.13 and the lengthening after it to term `i`, where the next term with text is
/// `j`.
fn dha_lopa_at(p: &mut Prakriya, i: usize, j: usize)
    requires
        i < j < old(p).terms_seq().len(),
    ensures
        Prakriya::rewrote(*old(p), *final(p)),
        final(p).terms_seq().len() == old(p).terms_seq().len(),
        forall|k: int|
            0 <= k < old(p).terms_seq().len() && k != i ==> final(p).terms_seq()[k] == old(
                p,
            ).terms_seq()[k],
        crate::operations::same_but_text(old(p).terms_seq()[i as int], final(p).terms_seq()[i as int]),
        final(p).terms_seq()[i as int].text@ == dha_lopa_text(
            old(p).terms_seq()[i as int],
            old(p).terms_seq()[j as int],
        ),
{
    proof {
        lemma_an();
        crate::prakriya::lemma_rewrote_refl(*p);
    }
    let ghost p0 = *p;
    let an_set = sounds::s("aR");
    if p.terms()[i].has_antya('Q') && p.terms()[j].has_adi('Q') {
        crate::operators::term_antya(p, "8.3.13", i, "");
        let ghost p1 = *p;
        let x = &p.terms()[i];
        if an_set.contains_opt(x.antya()) {
            if x.has_u_in(&["zaha~\\", "va\\ha~^"]) {
                crate::operators::term_antya(p, "6.3.112", i, "o");
            } else {
                match x.antya() {
                    Some(a) => match sounds::to_dirgha(a) {
                        Some(d) => {
                            let sub = strings::char_string(d);
                            crate::operators::term_antya(p, "6.3.111", i, sub.as_str());
                        },
                        None => {},
                    },
                    None => {},
                }
            }
        }
        proof {
            crate::prakriya::lemma_rewrote_refl(p1);
            crate::prakriya::lemma_rewrote_trans(p0, p1, *p);
        }
    }
}

/// Deletes a `Q` before `Q` (8.3.13) and lengthens the vowel before it (6.3.111, 6.3.112), term
/// by term, as long as a later term has text. Returns `None` where it stops at a term with no
/// text after it, which is the case for any nonempty list of terms.
pub fn try_dha_lopa(p: &mut Prakriya) -> (r: Option<()>)
    ensures
        r is None <==> old(p).terms_seq().len() > 0,
        Prakriya::rewrote(*old(p), *final(p)),
        final(p).terms_seq().len() == old(p).terms_seq().len(),
        forall|i: int|
            0 <= i < old(p).terms_seq().len() ==> #[trigger] dha_lopa_done(
                old(p).terms_seq(),
                final(p).terms_seq(),
                i,
            ),
{
    proof {
        crate::prakriya::lemma_rewrote_refl(*p);
    }
    let ghost ts = p.terms_seq();
    let len = p.terms().len();
    let mut i: usize = 0;
    while i < len
        invariant
            i <= len,
            len == ts.len(),
            ts == old(p).terms_seq(),
            p.terms_seq().len() == len,
            Prakriya::rewrote(*old(p), *p),
            i < len || len == 0,
            forall|k: int| 0 <= k < i ==> #[trigger] dha_lopa_done(ts, p.terms_seq(), k),
            forall|k: int| i <= k < len ==> #[trigger] p.terms_seq()[k] == ts[k],
        decreases len - i,
    {
        let j = match p.find_next_where(i, not_empty) {
            Some(j) => j,
            None => {
                proof {
                    let cur = p.terms_seq();
                    assert forall|k: int| i + 1 <= k < ts.len() implies (#[trigger] ts[k]).text@.len()
                        == 0 by {
                        assert(cur[k] == ts[k]);
                    }
                    lemma_next_nonempty_none(ts, i + 1);
                    assert forall|k: int| i <= k < len implies #[trigger] next_nonempty(ts, k + 1) == -1 by {
                        assert forall|m: int| k + 1 <= m < ts.len() implies (#[trigger] ts[m]).text@.len()
                            == 0 by {
                            assert(cur[m] == ts[m]);
                        }
                        lemma_next_nonempty_none(ts, k + 1);
                    }
                    assert forall|k: int| 0 <= k < len implies #[trigger] dha_lopa_done(
                        ts,
                        cur,
                        k,
                    ) by {
                        if k >= i {
                            assert(cur[k] == ts[k]);
                            assert(next_nonempty(ts, k + 1) == -1);
                        }
                    }
                }
                return None;
            },
        };
        proof {
            let cur = p.terms_seq();
            assert forall|k: int| i < k < len implies cur[k] == ts[k] by {}
            assert forall|k: int| i + 1 <= k < j implies (#[trigger] ts[k]).text@.len() == 0 by {
                assert(call_ensures(not_empty, (&cur[k],), false));
            }
            assert(call_ensures(not_empty, (&cur[j as int],), true));
            lemma_next_nonempty_found(ts, i + 1, j as int);
        }
        let ghost before = *p;
        dha_lopa_at(p, i, j);
        proof {
            crate::prakriya::lemma_rewrote_trans(*old(p), before, *p);
            assert forall|k: int| 0 <= k < i + 1 implies #[trigger] dha_lopa_done(
                ts,
                p.terms_seq(),
                k,
            ) by {
                if k < i {
                    assert(dha_lopa_done(ts, before.terms_seq(), k));
                    assert(p.terms_seq()[k] == before.terms_seq()[k]);
                } else {
                    assert(before.terms_seq()[k] == ts[k]);
                    assert(before.terms_seq()[j as int] == ts[j as int]);
                }
            }
        }
        i = i + 1;
    }
    Some(())
}

/// Applies rule `code` to term `i`, if there is one, by deleting its text: `op_term` with
/// `lopa`.
fn term_lopa(p: &mut Prakriya, code: crate::prakriya::Rule, i: usize) -> (r: bool)
    ensures
        r == (i < old(p).terms_seq().len()),
        !r ==> *final(p) == *old(p),
        r ==> crate::operators::term_rule_applied(*old(p), *final(p), code, i as int, Seq::empty()),
{
    let op = |t: &mut Term|
        ensures
            final(t).text@ == Seq::<char>::empty(),
            crate::operations::same_but_text(*old(t), *final(t)),
        {
            crate::operations::lopa(t);
        };
    p.op_term(code, i, op)
}

proof fn same_shape_after_rule(a: Prakriya, b: Prakriya, code: crate::prakriya::Rule, i: int, text: Seq<char>)
    requires
        crate::operators::term_rule_applied(a, b, code, i, text),
    ensures
        same_shape(a, b),
{
    assert forall|j: int| 0 <= j < a.terms_seq().len() implies crate::operations::same_but_text(
        #[trigger] a.terms_seq()[j],
        b.terms_seq()[j],
    ) by {
        if j != i {
            assert(b.terms_seq()[j] == a.terms_seq()[j]);
        }
    }
}

/// The index of the first of the texts `xs` from `j` on that is not empty; -1 where there is
/// none.
pub open spec fn next_filled(xs: Seq<Seq<char>>, j: int) -> int
    decreases xs.len() - j,
{
    if j < 0 || j >= xs.len() {
        -1
    } else if xs[j].len() > 0 {
        j
    } else {
        next_filled(xs, j + 1)
    }
}

pub(crate) proof fn lemma_next_filled(ts: Seq<Term>, j: int)
    ensures
        next_nonempty(ts, j) == next_filled(crate::char_view::term_texts(ts), j),
    decreases ts.len() - j,
{
    if 0 <= j < ts.len() {
        lemma_next_filled(ts, j + 1);
    }
}

/// The texts `xs` after 8.2.24 (rāt sasya) and 8.2.25 (dhi ca) at the boundaries of the terms
/// from `i` on, in order: where the next text that is not empty after term `i` is the last
/// one and is `s`, and term `i` ends in `r`, that `s` goes; else where term `i` ends in `s`
/// and that next text begins with `D`, the `s` of term `i` goes. The pass stops at the first
/// term after which all texts are empty.
pub open spec fn s_lopa_texts(xs: Seq<Seq<char>>, i: int) -> Seq<Seq<char>>
    decreases xs.len() - i,
{
    if i < 0 || i >= xs.len() {
        xs
    } else {
        let j = next_filled(xs, i + 1);
        if j == -1 {
            xs
        } else {
            let ys = if xs[i].len() > 0 && xs[i].last() == 'r' && xs[j] == seq!['s'] && j
                == xs.len() - 1 {
                xs.update(j, crate::operations::replace_adi(xs[j], Seq::empty()))
            } else if xs[i].len() > 0 && xs[i].last() == 's' && xs[j].len() > 0 && xs[j][0]
                == 'D' {
                xs.update(i, replace_antya(xs[i], Seq::empty()))
            } else {
                xs
            };
            s_lopa_texts(ys, i + 1)
        }
    }
}

/// 8.2.24 (rāt sasya) and 8.2.25 (dhi ca) at the boundaries of terms: an `s` after `r` at the
/// end is dropped, and an `s` before `D` is dropped.
fn s_lopa_at_boundaries(p: &mut Prakriya)
    ensures
        final(p).cfg() == old(p).cfg(),
        same_shape(*old(p), *final(p)),
        crate::char_view::term_texts(final(p).terms_seq()) == s_lopa_texts(
            crate::char_view::term_texts(old(p).terms_seq()),
            0,
        ),
{
    proof {
        reveal_strlit("s");
        reveal_strlit("");
    }
    let n = p.terms().len();
    let mut i: usize = 0;
    let mut stop = false;
    while i < n && !stop
        invariant
            i <= n,
            p.terms_seq().len() == n,
            same_shape(*old(p), *p),
            p.cfg() == old(p).cfg(),
            s_lopa_texts(crate::char_view::term_texts(p.terms_seq()), i as int) == s_lopa_texts(
                crate::char_view::term_texts(old(p).terms_seq()),
                0,
            ),
            stop ==> s_lopa_texts(crate::char_view::term_texts(p.terms_seq()), i as int)
                == crate::char_view::term_texts(p.terms_seq()),
            "s"@ == seq!['s'],
            ""@ == Seq::<char>::empty(),
        decreases n - i + (if stop {
            0int
        } else {
            1int
        }),
    {
        let ghost xs = crate::char_view::term_texts(p.terms_seq());
        proof {
            lemma_next_filled(p.terms_seq(), i + 1);
        }
        match crate::tripadi::pada_8_2::next_with_text(p, i) {
            Some(j) => {
                let ghost before = *p;
                if p.terms()[i].has_antya('r') && p.terms()[j].has_text("s") && j == n - 1 {
                    crate::operators::term_adi(p, "8.2.24", j, "");
                    proof {
                        same_shape_after_rule(
                            before,
                            *p,
                            "8.2.24",
                            j as int,
                            crate::operations::replace_adi(before.terms_seq()[j as int].text@, ""@),
                        );
                    }
                } else if p.terms()[i].has_antya('s') && p.terms()[j].has_adi('D') {
                    crate::operators::term_antya(p, "8.2.25", i, "");
                    proof {
                        same_shape_after_rule(
                            before,
                            *p,
                            "8.2.25",
                            i as int,
                            replace_antya(before.terms_seq()[i as int].text@, ""@),
                        );
                    }
                }
                proof {
                    crate::char_view::lemma_same_shape_trans(*old(p), before, *p);
                    assert(crate::char_view::term_texts(p.terms_seq()) =~= if xs[i as int].len() > 0
                        && xs[i as int].last() == 'r' && xs[j as int] == seq!['s'] && j == xs.len() - 1 {
                        xs.update(j as int, crate::operations::replace_adi(xs[j as int], Seq::empty()))
                    } else if xs[i as int].len() > 0 && xs[i as int].last() == 's' && xs[j as int].len() > 0
                        && xs[j as int][0] == 'D' {
                        xs.update(i as int, replace_antya(xs[i as int], Seq::empty()))
                    } else {
                        xs
                    });
                }
                i = i + 1;
            },
            None => {
                stop = true;
            },
        }
    }
    proof {
        if !stop {
            assert(i == n);
        }
    }
}

/// Rules 8.2.28 (iṭa īṭi) and 6.1.101 for `iw` + `si~c` + `Iw` at `i`.
fn it_sic_it(p: &mut Prakriya, i: usize)
    requires
        i + 2 < old(p).terms_seq().len(),
    ensures
        final(p).cfg() == old(p).cfg(),
        same_shape(*old(p), *final(p)),
        ({
            let ts = old(p).terms_seq();
            let xs = crate::char_view::term_texts(ts);
            crate::char_view::term_texts(final(p).terms_seq()) == if ts[i as int].u_is("iw"@)
                && ts[i + 1].u_is("si~c"@) && ts[i + 2].u_is("Iw"@) {
                xs.update(i + 1, Seq::empty()).update(i as int, replace_antya(xs[i as int], "I"@)).update(
                    i + 2,
                    crate::operations::replace_adi(xs[i + 2], Seq::empty()),
                )
            } else {
                xs
            }
        }),
{
    let ghost p0 = *p;
    let n = p.terms().len();
    assert(i + 2 < n);
    if p.terms()[i].has_u("iw") && p.terms()[i + 1].has_u("si~c") && p.terms()[i + 2].has_u("Iw") {
        term_lopa(p, "8.2.28", i + 1);
        proof {
            same_shape_after_rule(p0, *p, "8.2.28", i + 1, Seq::empty());
        }
        let ghost p1 = *p;
        // sic-lopa is siddha with respect to prior rules (8.2.3 vArttika). Therefore, apply
        // ac-sandhi:
        let op = |q: &mut Prakriya|
            ensures
                same_shape(*old(q), *final(q)),
                final(q).cfg() == old(q).cfg(),
                i + 2 < old(q).terms_seq().len() ==> crate::char_view::term_texts(final(q).terms_seq())
                    == crate::char_view::term_texts(old(q).terms_seq()).update(
                    i as int,
                    replace_antya(old(q).terms_seq()[i as int].text@, "I"@),
                ).update(
                    i + 2,
                    crate::operations::replace_adi(old(q).terms_seq()[i + 2].text@, ""@),
                ),
            {
                let to_long = |t: &mut Term|
                    ensures
                        final(t).text@ == replace_antya(old(t).text@, "I"@),
                        crate::operations::same_but_text(*old(t), *final(t)),
                    {
                        crate::operations::antya(t, "I");
                    };
                let drop_adi = |t: &mut Term|
                    ensures
                        final(t).text@ == crate::operations::replace_adi(old(t).text@, ""@),
                        crate::operations::same_but_text(*old(t), *final(t)),
                    {
                        crate::operations::adi(t, "");
                    };
                let ghost q0 = *q;
                q.set(i, to_long);
                let ghost q1 = *q;
                assert(same_shape(q0, q1)) by {
                    assert forall|j: int| 0 <= j < q0.terms_seq().len() implies crate::operations::same_but_text(
                        #[trigger] q0.terms_seq()[j],
                        q1.terms_seq()[j],
                    ) by {
                        if j != i {
                            assert(q1.terms_seq()[j] == q0.terms_seq()[j]);
                        }
                    }
                }
                q.set(i + 2, drop_adi);
                assert(same_shape(q1, *q)) by {
                    assert forall|j: int| 0 <= j < q1.terms_seq().len() implies crate::operations::same_but_text(
                        #[trigger] q1.terms_seq()[j],
                        q.terms_seq()[j],
                    ) by {
                        if j != i + 2 {
                            assert(q.terms_seq()[j] == q1.terms_seq()[j]);
                        }
                    }
                }
                proof {
                    crate::char_view::lemma_same_shape_trans(q0, q1, *q);
                    if i + 2 < q0.terms_seq().len() {
                        assert(crate::char_view::term_texts(q.terms_seq()) =~= crate::char_view::term_texts(
                            q0.terms_seq(),
                        ).update(i as int, replace_antya(q0.terms_seq()[i as int].text@, "I"@)).update(
                            i + 2,
                            crate::operations::replace_adi(q0.terms_seq()[i + 2].text@, ""@),
                        ));
                    }
                }
            };
        p.op("6.1.101", op);
        proof {
            crate::char_view::lemma_same_shape_trans(p0, p1, *p);
            reveal_strlit("");
            let xs = crate::char_view::term_texts(p0.terms_seq());
            assert(crate::char_view::term_texts(p1.terms_seq()) =~= xs.update(i + 1, Seq::empty()));
            assert(crate::char_view::term_texts(p.terms_seq()) =~= xs.update(i + 1, Seq::empty()).update(
                i as int,
                replace_antya(xs[i as int], "I"@),
            ).update(i + 2, crate::operations::replace_adi(xs[i + 2], Seq::empty())));
        }
    }
}

/// 8.2.27 (hrasvād aṅgāt) for a short term, `s` and a term that starts with `Jal` at `i`.
fn hrasvad_angat(p: &mut Prakriya, i: usize, jhal_set: &crate::sounds::SoundSet)
    requires
        i + 2 < old(p).terms_seq().len(),
    ensures
        final(p).cfg() == old(p).cfg(),
        same_shape(*old(p), *final(p)),
        ({
            let ts = old(p).terms_seq();
            let xs = crate::char_view::term_texts(ts);
            crate::char_view::term_texts(final(p).terms_seq()) == if !crate::filters::spec_is_dirgha(
                ts[i as int],
            ) && ts[i + 1].text@ == "s"@ && ts[i + 2].text@.len() > 0 && jhal_set@.contains(
                ts[i + 2].text@[0],
            ) && !ts[i as int].tagged(T::Agama) {
                xs.update(i + 1, Seq::empty())
            } else {
                xs
            }
        }),
{
    let ghost p0 = *p;
    let n = p.terms().len();
    assert(i + 2 < n);
    let x = &p.terms()[i];
    if crate::filters::is_hrasva(x) && p.terms()[i + 1].has_text("s") && jhal_set.contains_opt(
        p.terms()[i + 2].adi(),
    ) && !x.has_tag(T::Agama) {
        term_lopa(p, "8.2.27", i + 1);
        proof {
            same_shape_after_rule(p0, *p, "8.2.27", i + 1, Seq::empty());
            assert(crate::char_view::term_texts(p.terms_seq()) =~= crate::char_view::term_texts(
                p0.terms_seq(),
            ).update(i + 1, Seq::empty()));
        }
    }
}

proof fn lemma_not_samyoganta_quiet<FF, OO>(f: FF, o: OO, x: Prakriya) where
    FF: Fn(&mut Prakriya, &str, usize) -> bool,
    OO: Fn(&mut Prakriya, &str, usize) -> bool,

    requires
        forall|q: &mut Prakriya, t: &str, i: usize, b: bool|
            #[trigger] call_ensures(f, (q, t, i), b) ==> b == (i + 1 == t@.len()
                && crate::sounds::spec_is_samyoganta(t@)),
        forall|q: &mut Prakriya, t: &str, i: usize, c: bool|
            #[trigger] call_ensures(o, (q, t, i), c) ==> c,
        quiet_on(f, o, x),
    ensures
        !crate::sounds::spec_is_samyoganta(concat_texts(x.terms_seq())),
{
    let (start, text) = choose|start: Prakriya, text: &str|
        #![trigger same_but_log(start, x), text@]
        same_but_log(start, x) && text@ == concat_texts(start.terms_seq()) && text@.len()
            <= usize::MAX && forall|i: usize|
            (i as int) < text@.len() ==> #[trigger] quiet_at(f, o, text, i, start);
    let t = text@;
    if crate::sounds::spec_is_samyoganta(t) {
        let iu = (t.len() - 1) as usize;
        assert(quiet_at(f, o, text, iu, start));
        let (q, b) = choose|q: &mut Prakriya, b: bool|
            same_but_log(start, *q) && #[trigger] call_ensures(f, (q, text, iu), b) && (b ==> exists|
                q2: &mut Prakriya,
            | same_but_log(start, *q2) && #[trigger] call_ensures(o, (q2, text, iu), false));
        let q2 = choose|q2: &mut Prakriya|
            same_but_log(start, *q2) && #[trigger] call_ensures(o, (q2, text, iu), false);
        assert(call_ensures(o, (q2, text, iu), false));
    }
}

/// Whether an `s` at `i + 1` of `t` stands between two sounds of `Jal` (8.2.26).
pub open spec fn s_between_jhal(t: Seq<char>, i: int) -> bool {
    0 <= i && i + 2 < t.len() && jhal().contains(t[i]) && t[i + 1] == 's' && jhal().contains(
        t[i + 2],
    )
}

/// Whether `s` or `k` at `i` of `t` begins a conjunct before a consonant (8.2.29): a vowel or
/// `n` precedes it, a consonant follows it, and a sound of `Jal` follows that where there is one.
pub open spec fn sk_before_hal(t: Seq<char>, i: int) -> bool {
    0 < i && i + 1 < t.len() && (t[i] == 's' || t[i] == 'k') && crate::asiddhavat::hal().contains(
        t[i + 1],
    ) && (crate::angasya::ac().contains(t[i - 1]) || t[i - 1] == 'n') && (i + 2 < t.len()
        ==> jhal().contains(t[i + 2]))
}

/// Whether `iw`, `si~c` and `Iw` follow each other from term `i` of `ts` (8.2.28).
pub open spec fn it_sic_it_at(ts: Seq<Term>, i: int) -> bool {
    ts[i].u_is("iw"@) && ts[i + 1].u_is("si~c"@) && ts[i + 2].u_is("Iw"@)
}

/// Whether 8.2.27 (hrasvād aṅgāt) applies from term `i` of `ts`: a short term that is no
/// agama, then `s`, then a term that starts with a sound of `Jal`.
pub open spec fn hrasvad_at(ts: Seq<Term>, i: int) -> bool {
    !crate::filters::spec_is_dirgha(ts[i]) && ts[i + 1].text@ == "s"@ && ts[i + 2].text@.len() > 0
        && jhal().contains(ts[i + 2].text@[0]) && !ts[i].tagged(T::Agama)
}

/// Whether none of the rules of `try_lopa_of_samyoganta_and_s` has anything to do on `ts`.
pub open spec fn samyoga_rules_idle(ts: Seq<Term>) -> bool {
    let t = concat_texts(ts);
    &&& forall|i: int| !#[trigger] s_between_jhal(t, i)
    &&& s_lopa_texts(crate::char_view::term_texts(ts), 0) == crate::char_view::term_texts(ts)
    &&& forall|i: int| 0 <= i && i + 2 < ts.len() ==> !#[trigger] it_sic_it_at(ts, i)
    &&& forall|i: int| !#[trigger] sk_before_hal(t, i)
    &&& forall|i: int| 0 <= i && i + 2 < ts.len() ==> !#[trigger] hrasvad_at(ts, i)
    &&& !crate::sounds::spec_is_samyoganta(t)
}

/// The texts `xs` with sound `i` of their joined text dropped.
pub open spec fn drop_sound_rewrite() -> SoundRewrite {
    |xs: Seq<Seq<char>>, i: int| Some(crate::char_view::set_sound(xs, i, Seq::empty()))
}

/// Where 8.2.26 (jhalo jhali) looks: an `s` between two sounds of `Jal`, at the sound before it.
pub open spec fn s_between_jhal_accepts() -> SoundAccepts {
    |xs: Seq<Seq<char>>, i: int| s_between_jhal(crate::char_view::joined(xs), i)
}

/// What 8.2.26 does at sound `i`: the `s` after it goes (where that index is one a `usize` can
/// hold).
pub open spec fn s_between_jhal_rewrite() -> SoundRewrite {
    |xs: Seq<Seq<char>>, i: int| Some(
        if i < usize::MAX {
            crate::char_view::set_sound(xs, i + 1, Seq::empty())
        } else {
            xs
        },
    )
}

/// Where 8.2.29 (skoḥ saṃyogādyor ante ca) looks: `s` or `k` that starts a conjunct after a
/// vowel or `n`, outside the text `sanst`, before a consonant and, where a third sound follows,
/// before a sound of `Jal` there.
pub open spec fn sku_accepts() -> SoundAccepts {
    |xs: Seq<Seq<char>>, i: int| {
        let t = crate::char_view::joined(xs);
        let k = crate::char_view::locate_text(xs, i, 0, 0).0;
        let start = i > 0 && (crate::angasya::ac().contains(t[i - 1]) || t[i - 1] == 'n') && !(k
            != -1 && xs[k] == "sanst"@);
        let sku = (t[i] == 's' || t[i] == 'k') && crate::asiddhavat::hal().contains(t[i + 1]) && start;
        &&& 0 <= i && i + 1 < t.len()
        &&& sku
        &&& (i + 2 < t.len() ==> jhal().contains(t[i + 2]))
    }
}

/// Where the lopa of the last sound of a final conjunct looks: the last sound of a joined text
/// that ends in a conjunct.
pub open spec fn samyoganta_accepts() -> SoundAccepts {
    |xs: Seq<Seq<char>>, i: int| i + 1 == crate::char_view::joined(xs).len()
        && crate::sounds::spec_is_samyoganta(crate::char_view::joined(xs))
}

/// The texts `xs` of terms shaped as `ts` after 8.2.28 at the terms from `i` on, in order.
pub open spec fn sic_pass(ts: Seq<Term>, xs: Seq<Seq<char>>, i: int) -> Seq<Seq<char>>
    decreases ts.len() - i,
{
    if 0 <= i && i + 2 < ts.len() {
        let ys = if it_sic_it_at(ts, i) {
            xs.update(i + 1, Seq::empty()).update(i, replace_antya(xs[i], "I"@)).update(
                i + 2,
                crate::operations::replace_adi(xs[i + 2], Seq::empty()),
            )
        } else {
            xs
        };
        sic_pass(ts, ys, i + 1)
    } else {
        xs
    }
}

/// Whether 8.2.27 applies at term `i` of terms shaped as `ts` with the texts `xs`.
pub open spec fn hrasvad_texts_at(ts: Seq<Term>, xs: Seq<Seq<char>>, i: int) -> bool {
    !(crate::term::spec_antya(xs[i]) matches Some(c) && crate::sounds::spec_is_dirgha(c)) && xs[i
        + 1] == "s"@ && xs[i + 2].len() > 0 && jhal().contains(xs[i + 2][0]) && !ts[i].tagged(
        T::Agama,
    )
}

/// The texts `xs` of terms shaped as `ts` after 8.2.27 at the terms from `i` on, in order.
pub open spec fn hrasvad_pass(ts: Seq<Term>, xs: Seq<Seq<char>>, i: int) -> Seq<Seq<char>>
    decreases ts.len() - i,
{
    if 0 <= i && i + 2 < ts.len() {
        let ys = if hrasvad_texts_at(ts, xs, i) {
            xs.update(i + 1, Seq::empty())
        } else {
            xs
        };
        hrasvad_pass(ts, ys, i + 1)
    } else {
        xs
    }
}

/// The texts of the terms `ts` after the rules of `try_lopa_of_samyoganta_and_s` in turn: 8.2.26
/// until it changes nothing, 8.2.24 and 8.2.25 at the boundaries, 8.2.28, 8.2.29 until it
/// changes nothing, 8.2.27, and the lopa of the last sound of a final conjunct until it changes
/// nothing; `None` where a rule on sounds does not settle.
pub open spec fn samyoga_texts(ts: Seq<Term>) -> Option<Seq<Seq<char>>> {
    match crate::char_view::settle(
        s_between_jhal_accepts(),
        s_between_jhal_rewrite(),
        crate::char_view::term_texts(ts),
        10,
    ) {
        None => None,
        Some(x1) => {
            let x3 = sic_pass(ts, s_lopa_texts(x1, 0), 0);
            match crate::char_view::settle(sku_accepts(), drop_sound_rewrite(), x3, 10) {
                None => None,
                Some(x4) => crate::char_view::settle(
                    samyoganta_accepts(),
                    drop_sound_rewrite(),
                    hrasvad_pass(ts, x4, 0),
                    10,
                ),
            }
        },
    }
}

proof fn lemma_s_lopa_len(xs: Seq<Seq<char>>, i: int)
    ensures
        crate::char_view::joined(s_lopa_texts(xs, i)).len() <= crate::char_view::joined(xs).len(),
    decreases xs.len() - i,
{
    if 0 <= i < xs.len() {
        let j = next_filled(xs, i + 1);
        if j != -1 {
            lemma_next_filled_range(xs, i + 1);
            let ys = if xs[i].len() > 0 && xs[i].last() == 'r' && xs[j] == seq!['s'] && j == xs.len() - 1 {
                xs.update(j, crate::operations::replace_adi(xs[j], Seq::empty()))
            } else if xs[i].len() > 0 && xs[i].last() == 's' && xs[j].len() > 0 && xs[j][0] == 'D' {
                xs.update(i, replace_antya(xs[i], Seq::empty()))
            } else {
                xs
            };
            if xs[i].len() > 0 && xs[i].last() == 'r' && xs[j] == seq!['s'] && j == xs.len() - 1 {
                crate::char_view::lemma_joined_update_len(xs, j, crate::operations::replace_adi(xs[j], Seq::empty()));
            } else if xs[i].len() > 0 && xs[i].last() == 's' && xs[j].len() > 0 && xs[j][0] == 'D' {
                crate::char_view::lemma_joined_update_len(xs, i, replace_antya(xs[i], Seq::empty()));
            }
            lemma_s_lopa_len(ys, i + 1);
        }
    }
}

proof fn lemma_s_lopa_count(xs: Seq<Seq<char>>, i: int)
    ensures
        s_lopa_texts(xs, i).len() == xs.len(),
    decreases xs.len() - i,
{
    if 0 <= i < xs.len() {
        let j = next_filled(xs, i + 1);
        if j != -1 {
            lemma_next_filled_range(xs, i + 1);
            let ys = if xs[i].len() > 0 && xs[i].last() == 'r' && xs[j] == seq!['s'] && j == xs.len() - 1 {
                xs.update(j, crate::operations::replace_adi(xs[j], Seq::empty()))
            } else if xs[i].len() > 0 && xs[i].last() == 's' && xs[j].len() > 0 && xs[j][0] == 'D' {
                xs.update(i, replace_antya(xs[i], Seq::empty()))
            } else {
                xs
            };
            lemma_s_lopa_count(ys, i + 1);
        }
    }
}

proof fn lemma_sic_pass_count(ts: Seq<Term>, xs: Seq<Seq<char>>, i: int)
    requires
        xs.len() == ts.len(),
    ensures
        sic_pass(ts, xs, i).len() == xs.len(),
    decreases ts.len() - i,
{
    if 0 <= i && i + 2 < ts.len() {
        if it_sic_it_at(ts, i) {
            lemma_sic_pass_count(
                ts,
                xs.update(i + 1, Seq::empty()).update(i, replace_antya(xs[i], "I"@)).update(
                    i + 2,
                    crate::operations::replace_adi(xs[i + 2], Seq::empty()),
                ),
                i + 1,
            );
        } else {
            lemma_sic_pass_count(ts, xs, i + 1);
        }
    }
}

proof fn lemma_next_filled_range(xs: Seq<Seq<char>>, j: int)
    ensures
        next_filled(xs, j) == -1 || (j <= next_filled(xs, j) < xs.len()),
    decreases xs.len() - j,
{
    if 0 <= j < xs.len() && xs[j].len() == 0 {
        lemma_next_filled_range(xs, j + 1);
    }
}

proof fn lemma_sic_pass_len(ts: Seq<Term>, xs: Seq<Seq<char>>, i: int)
    requires
        xs.len() == ts.len(),
    ensures
        crate::char_view::joined(sic_pass(ts, xs, i)).len() <= crate::char_view::joined(xs).len(),
    decreases ts.len() - i,
{
    if 0 <= i && i + 2 < ts.len() {
        if it_sic_it_at(ts, i) {
            let a = xs.update(i + 1, Seq::empty());
            let b = a.update(i, replace_antya(xs[i], "I"@));
            let c = b.update(i + 2, crate::operations::replace_adi(xs[i + 2], Seq::empty()));
            crate::char_view::lemma_joined_update_len(xs, i + 1, Seq::empty());
            crate::char_view::lemma_joined_update_len(a, i, replace_antya(xs[i], "I"@));
            crate::char_view::lemma_joined_update_len(b, i + 2, crate::operations::replace_adi(xs[i + 2], Seq::empty()));
            assert(b[i + 2] == xs[i + 2]);
            assert(a[i] == xs[i]);
            reveal_strlit("I");
            lemma_sic_pass_len(ts, c, i + 1);
        } else {
            lemma_sic_pass_len(ts, xs, i + 1);
        }
    }
}

proof fn lemma_hrasvad_pass_len(ts: Seq<Term>, xs: Seq<Seq<char>>, i: int)
    requires
        xs.len() == ts.len(),
    ensures
        crate::char_view::joined(hrasvad_pass(ts, xs, i)).len() <= crate::char_view::joined(xs).len(),
    decreases ts.len() - i,
{
    if 0 <= i && i + 2 < ts.len() {
        if hrasvad_texts_at(ts, xs, i) {
            crate::char_view::lemma_joined_update_len(xs, i + 1, Seq::empty());
            lemma_hrasvad_pass_len(ts, xs.update(i + 1, Seq::empty()), i + 1);
        } else {
            lemma_hrasvad_pass_len(ts, xs, i + 1);
        }
    }
}

/// The rules of `try_lopa_of_samyoganta_and_s` only drop sounds or lengthen `i`: where they
/// settle, the joined text is no longer than before.
pub proof fn lemma_samyoga_texts_len(ts: Seq<Term>)
    ensures
        samyoga_texts(ts) is Some ==> crate::char_view::joined(samyoga_texts(ts)->0).len()
            <= crate::char_view::joined(crate::char_view::term_texts(ts)).len(),
{
    assert forall|xs: Seq<Seq<char>>, i: int| #[trigger] (drop_sound_rewrite())(xs, i) is Some implies crate::char_view::joined(
        (drop_sound_rewrite())(xs, i)->0,
    ).len() <= crate::char_view::joined(xs).len() by {
        crate::char_view::lemma_set_sound_drop_len(xs, i);
    }
    assert forall|xs: Seq<Seq<char>>, i: int| #[trigger] (s_between_jhal_rewrite())(xs, i) is Some implies crate::char_view::joined(
        (s_between_jhal_rewrite())(xs, i)->0,
    ).len() <= crate::char_view::joined(xs).len() by {
        crate::char_view::lemma_set_sound_drop_len(xs, i + 1);
    }
    assert forall|xs: Seq<Seq<char>>, i: int| #[trigger] (drop_sound_rewrite())(xs, i) is Some implies ((
        drop_sound_rewrite())(xs, i)->0).len() == xs.len() by {
        crate::char_view::lemma_set_sound_count(xs, i, Seq::empty());
    }
    assert forall|xs: Seq<Seq<char>>, i: int| #[trigger] (s_between_jhal_rewrite())(xs, i) is Some implies ((
        s_between_jhal_rewrite())(xs, i)->0).len() == xs.len() by {
        crate::char_view::lemma_set_sound_count(xs, i + 1, Seq::empty());
    }
    let xs0 = crate::char_view::term_texts(ts);
    crate::char_view::lemma_settle_len(s_between_jhal_accepts(), s_between_jhal_rewrite(), xs0, 10);
    crate::char_view::lemma_settle_count(s_between_jhal_accepts(), s_between_jhal_rewrite(), xs0, 10);
    match crate::char_view::settle(s_between_jhal_accepts(), s_between_jhal_rewrite(), xs0, 10) {
        None => {},
        Some(x1) => {
            lemma_s_lopa_len(x1, 0);
            let x2 = s_lopa_texts(x1, 0);
            lemma_s_lopa_count(x1, 0);
            lemma_sic_pass_len(ts, x2, 0);
            let x3 = sic_pass(ts, x2, 0);
            lemma_sic_pass_count(ts, x2, 0);
            crate::char_view::lemma_settle_len(sku_accepts(), drop_sound_rewrite(), x3, 10);
            crate::char_view::lemma_settle_count(sku_accepts(), drop_sound_rewrite(), x3, 10);
            match crate::char_view::settle(sku_accepts(), drop_sound_rewrite(), x3, 10) {
                None => {},
                Some(x4) => {
                    lemma_hrasvad_pass_len(ts, x4, 0);
                    crate::char_view::lemma_settle_len(
                        samyoganta_accepts(),
                        drop_sound_rewrite(),
                        hrasvad_pass(ts, x4, 0),
                        10,
                    );
                },
            }
        },
    }
}

/// Runs the rules of lopa for samyogas and `s` (8.2.23 - 8.2.29), each rule on sounds until
/// it finds nothing more to change. Returns whether each such rule settled; where one keeps
/// changing the text, it stops there and returns false. After a run that settled, the text
/// does not end in a conjunct of consonants.
pub fn try_lopa_of_samyoganta_and_s(p: &mut Prakriya) -> (done: bool)
    ensures
        same_shape(*old(p), *final(p)),
        done ==> !crate::sounds::spec_is_samyoganta(concat_texts(final(p).terms_seq())),
        samyoga_rules_idle(old(p).terms_seq()) ==> done && crate::char_view::term_texts(
            final(p).terms_seq(),
        ) == crate::char_view::term_texts(old(p).terms_seq()),
        done == samyoga_texts(old(p).terms_seq()) is Some,
        done ==> crate::char_view::term_texts(final(p).terms_seq()) == samyoga_texts(
            old(p).terms_seq(),
        )->0 && final(p).cfg() == old(p).cfg(),
        done ==> concat_texts(final(p).terms_seq()).len() <= concat_texts(old(p).terms_seq()).len(),
{
    proof {
        lemma_jhal_lists();
        crate::ac_sandhi::lemma_sound_lists();
        crate::asiddhavat::lemma_hal();
    }
    let jhal_set = sounds::s("Jal");
    let ghost p0 = *p;

    // Exception to 8.2.23.
    let ghost idle = samyoga_rules_idle(p.terms_seq());
    let ghost xs0 = crate::char_view::term_texts(p.terms_seq());
    let f = |p: &mut Prakriya, text: &str, i: usize| -> (b: bool)
        ensures
            *final(p) == *old(p),
            b ==> s_between_jhal(text@, i as int),
            b == s_between_jhal(text@, i as int),
        {
            match crate::char_view::xyz(p, text, i) {
                Some((x, y, z)) => jhal_set.contains_char(x) && y == 's' && jhal_set.contains_char(z),
                None => false,
            }
        };
    let o = |p: &mut Prakriya, text: &str, i: usize| -> (c: bool)
        ensures
            same_shape(*old(p), *final(p)),
            c,
            text@ == concat_texts(old(p).terms_seq()) && (i as int) < text@.len() ==> (c == (s_between_jhal_rewrite())(
                crate::char_view::term_texts(old(p).terms_seq()),
                i as int,
            ) is Some) && (c ==> final(p).cfg() == old(p).cfg() && final(p).tag_set() == old(p).tag_set()
                && crate::char_view::term_texts(final(p).terms_seq()) == (s_between_jhal_rewrite())(
                crate::char_view::term_texts(old(p).terms_seq()),
                i as int,
            )->0),
        {
            proof {
                crate::char_view::lemma_joined(p.terms_seq());
                reveal_strlit("");
            }
            if i < usize::MAX {
                set_at(p, i + 1, "");
            }
            p.step("8.2.26");
            true
        };
    proof {
        if idle {
            crate::char_view::lemma_cond_inert(
                f,
                o,
                |t: Seq<char>, i: int| s_between_jhal(t, i),
                *p,
            );
        }
    }
    let ghost x1 = *p;
    proof {
        assert forall|q: &mut Prakriya, t: &str, i: usize, b: bool|
            #[trigger] call_ensures(f, (q, t, i), b) && same_shape(x1, *q) && q.cfg() == x1.cfg()
                && t@ == concat_texts(q.terms_seq()) && (i as int) < t@.len() implies same_but_log(
            *q,
            *final(q),
        ) && b == (s_between_jhal_accepts())(crate::char_view::term_texts(q.terms_seq()), i as int) by {
            crate::char_view::lemma_joined(q.terms_seq());
        }
        assert forall|q: &mut Prakriya, t: &str, i: usize, c: bool|
            #[trigger] call_ensures(o, (q, t, i), c) && same_shape(x1, *q) && q.cfg() == x1.cfg()
                && t@ == concat_texts(q.terms_seq()) && (i as int) < t@.len() implies (c == (s_between_jhal_rewrite())(
            crate::char_view::term_texts(q.terms_seq()),
            i as int,
        ) is Some) && (c ==> same_shape(*q, *final(q)) && final(q).cfg() == q.cfg()
            && final(q).tag_set() == q.tag_set() && crate::char_view::term_texts(final(q).terms_seq())
            == (s_between_jhal_rewrite())(crate::char_view::term_texts(q.terms_seq()), i as int)->0) && (!c
            ==> same_but_log(*q, *final(q))) by {}
    }
    let r1 = char_rule(p, f, o);
    proof {
        assert(crate::char_view::settle(s_between_jhal_accepts(), s_between_jhal_rewrite(), crate::char_view::term_texts(x1.terms_seq()), 10)
            == crate::char_view::settle(s_between_jhal_accepts(), s_between_jhal_rewrite(), crate::char_view::term_texts(x1.terms_seq()), 10));
    }
    if !r1 {
        return false;
    }
    let ghost p1 = *p;

    s_lopa_at_boundaries(p);
    let ghost p2 = *p;
    proof {
        lemma_same_shape_trans(p0, p1, p2);
    }

    proof {
        lemma_same_shape_trans(p0, p1, p2);
    }
    let n = p.terms().len();
    let mut i: usize = 0;
    while i < n
        invariant
            p.terms_seq().len() == n,
            same_shape(p0, *p),
            idle ==> samyoga_rules_idle(p0.terms_seq()),
            idle ==> crate::char_view::term_texts(p.terms_seq()) == xs0,
            xs0 == crate::char_view::term_texts(p0.terms_seq()),
            i <= n,
            n == p0.terms_seq().len(),
            p.cfg() == p0.cfg(),
            sic_pass(p0.terms_seq(), crate::char_view::term_texts(p.terms_seq()), i as int) == sic_pass(
                p0.terms_seq(),
                crate::char_view::term_texts(p2.terms_seq()),
                0,
            ),
        decreases n - i,
    {
        if n >= 2 && i < n - 2 {
            let ghost before = *p;
            proof {
                assert(crate::operations::same_but_text(p0.terms_seq()[i as int], before.terms_seq()[i as int]));
                assert(crate::operations::same_but_text(p0.terms_seq()[i + 1], before.terms_seq()[i + 1]));
                assert(crate::operations::same_but_text(p0.terms_seq()[i + 2], before.terms_seq()[i + 2]));
                assert(it_sic_it_at(p0.terms_seq(), i as int) == it_sic_it_at(before.terms_seq(), i as int));
                if idle {
                    assert(!it_sic_it_at(p0.terms_seq(), i as int));
                    assert(crate::operations::same_but_text(p0.terms_seq()[i as int], before.terms_seq()[i as int]));
                    assert(crate::operations::same_but_text(p0.terms_seq()[i + 1], before.terms_seq()[i + 1]));
                    assert(crate::operations::same_but_text(p0.terms_seq()[i + 2], before.terms_seq()[i + 2]));
                }
            }
            it_sic_it(p, i);
            proof {
                lemma_same_shape_trans(p0, before, *p);
            }
        }
        i = i + 1;
    }

    let ac = sounds::s("ac");
    let hal = sounds::s("hal");
    let f = |p: &mut Prakriya, text: &str, i: usize| -> (b: bool)
        ensures
            *final(p) == *old(p),
            b ==> sk_before_hal(text@, i as int),
            text@ == concat_texts(old(p).terms_seq()) && (i as int) < text@.len() ==> b == (sku_accepts())(
                crate::char_view::term_texts(old(p).terms_seq()),
                i as int,
            ),
        {
            proof {
                crate::char_view::lemma_joined(p.terms_seq());
                crate::char_view::lemma_locate_text(p.terms_seq(), i as int, 0, 0);
                crate::char_view::lemma_locate_text_range(
                    crate::char_view::term_texts(p.terms_seq()),
                    i as int,
                    0,
                    0,
                );
            }
            let len = text.unicode_len();
            if !(i < len && len - i > 1) {
                return false;
            }
            let x = text.get_char(i);
            let y = text.get_char(i + 1);
            // Check that this is the start of a samyoga as opposed to a portion of a larger
            // samyoga. This check is necessary to prevent `saMstti -> santti`.
            //
            // > "'skoḥ' iti salopo'tra na bhavati, bahūnāṃ samavāye dvayossaṃyogasaṃjñābhāvāt"
            // > iti ātreyamaitreyau."
            // -- Madhaviya-dhatuvrtti.
            //
            // But, we should still allow mantkzyati -> maNksyati:
            //
            // > 'masjerantyātpūrvaṃ numamicchantyanuṣaṅgasaṃyogādilopārtham' ityantyātpūrvam,
            // > numi 'skoḥ saṃyogādyoḥ' iti salopaḥ.
            // -- Madhaviya-dhatuvrtti.
            //
            // So as a quick hack, w should be (empty OR a vowel) AND not "samst".
            let is_start_of_samyoga = if i > 0 {
                let w = text.get_char(i - 1);
                let in_sanst = match get_at(p, i) {
                    Some(t) => t.has_text("sanst"),
                    None => false,
                };
                (ac.contains_char(w) || w == 'n') && !in_sanst
            } else {
                false
            };
            let sku_samyoga = (x == 's' || x == 'k') && hal.contains_char(y) && is_start_of_samyoga;
            if len - i > 2 {
                let z = text.get_char(i + 2);
                sku_samyoga && jhal_set.contains_char(z)
            } else {
                sku_samyoga
            }
        };
    let o = |p: &mut Prakriya, text: &str, i: usize| -> (c: bool)
        ensures
            same_shape(*old(p), *final(p)),
            c,
            text@ == concat_texts(old(p).terms_seq()) && (i as int) < text@.len() ==> (c == (drop_sound_rewrite())(
                crate::char_view::term_texts(old(p).terms_seq()),
                i as int,
            ) is Some) && (c ==> final(p).cfg() == old(p).cfg() && final(p).tag_set() == old(p).tag_set()
                && crate::char_view::term_texts(final(p).terms_seq()) == (drop_sound_rewrite())(
                crate::char_view::term_texts(old(p).terms_seq()),
                i as int,
            )->0),
        {
            proof {
                crate::char_view::lemma_joined(p.terms_seq());
                reveal_strlit("");
            }
            set_at(p, i, "");
            p.step("8.2.29");
            true
        };
    let ghost p3 = *p;
    proof {
        if idle {
            crate::char_view::lemma_concat_by_texts(p3.terms_seq(), p0.terms_seq());
            crate::char_view::lemma_cond_inert(
                f,
                o,
                |t: Seq<char>, i: int| sk_before_hal(t, i),
                p3,
            );
        }
    }
    let ghost x4 = *p;
    proof {
        assert forall|q: &mut Prakriya, t: &str, i: usize, b: bool|
            #[trigger] call_ensures(f, (q, t, i), b) && same_shape(x4, *q) && q.cfg() == x4.cfg()
                && t@ == concat_texts(q.terms_seq()) && (i as int) < t@.len() implies same_but_log(
            *q,
            *final(q),
        ) && b == (sku_accepts())(crate::char_view::term_texts(q.terms_seq()), i as int) by {
            crate::char_view::lemma_joined(q.terms_seq());
        }
        assert forall|q: &mut Prakriya, t: &str, i: usize, c: bool|
            #[trigger] call_ensures(o, (q, t, i), c) && same_shape(x4, *q) && q.cfg() == x4.cfg()
                && t@ == concat_texts(q.terms_seq()) && (i as int) < t@.len() implies (c == (drop_sound_rewrite())(
            crate::char_view::term_texts(q.terms_seq()),
            i as int,
        ) is Some) && (c ==> same_shape(*q, *final(q)) && final(q).cfg() == q.cfg()
            && final(q).tag_set() == q.tag_set() && crate::char_view::term_texts(final(q).terms_seq())
            == (drop_sound_rewrite())(crate::char_view::term_texts(q.terms_seq()), i as int)->0) && (!c
            ==> same_but_log(*q, *final(q))) by {}
    }
    let r4 = char_rule(p, f, o);
    proof {
        assert(crate::char_view::settle(sku_accepts(), drop_sound_rewrite(), crate::char_view::term_texts(x4.terms_seq()), 10)
            == crate::char_view::settle(sku_accepts(), drop_sound_rewrite(), crate::char_view::term_texts(x4.terms_seq()), 10));
    }
    if !r4 {
        return false;
    }
    let ghost p4 = *p;
    proof {
        lemma_same_shape_trans(p0, p3, p4);
    }

    // hrasvAd aGgAt
    let mut i: usize = 0;
    while i < n
        invariant
            p.terms_seq().len() == n,
            same_shape(p0, *p),
            jhal_set@ == jhal(),
            idle ==> samyoga_rules_idle(p0.terms_seq()),
            idle ==> crate::char_view::term_texts(p.terms_seq()) == xs0,
            xs0 == crate::char_view::term_texts(p0.terms_seq()),
            i <= n,
            n == p0.terms_seq().len(),
            p.cfg() == p0.cfg(),
            hrasvad_pass(p0.terms_seq(), crate::char_view::term_texts(p.terms_seq()), i as int)
                == hrasvad_pass(p0.terms_seq(), crate::char_view::term_texts(p4.terms_seq()), 0),
        decreases n - i,
    {
        if n >= 2 && i < n - 2 {
            let ghost before = *p;
            proof {
                assert(crate::operations::same_but_text(p0.terms_seq()[i as int], before.terms_seq()[i as int]));
                if idle {
                    let ts = p0.terms_seq();
                    let us = before.terms_seq();
                    assert(!hrasvad_at(ts, i as int));
                    assert(crate::operations::same_but_text(ts[i as int], us[i as int]));
                    assert(crate::char_view::term_texts(ts)[i as int] == crate::char_view::term_texts(us)[i as int]);
                    assert(crate::char_view::term_texts(ts)[i + 1] == crate::char_view::term_texts(us)[i + 1]);
                    assert(crate::char_view::term_texts(ts)[i + 2] == crate::char_view::term_texts(us)[i + 2]);
                }
            }
            hrasvad_angat(p, i, &jhal_set);
            proof {
                lemma_same_shape_trans(p0, before, *p);
            }
        }
        i = i + 1;
    }

    let f = |p: &mut Prakriya, text: &str, i: usize| -> (b: bool)
        ensures
            *final(p) == *old(p),
            b == (i + 1 == text@.len() && crate::sounds::spec_is_samyoganta(text@)),
        {
            let len = text.unicode_len();
            sounds::is_samyoganta(text) && i < len && i == len - 1
        };
    let o = |p: &mut Prakriya, text: &str, i: usize| -> (c: bool)
        ensures
            same_shape(*old(p), *final(p)),
            c,
            text@ == concat_texts(old(p).terms_seq()) && (i as int) < text@.len() ==> (c == (drop_sound_rewrite())(
                crate::char_view::term_texts(old(p).terms_seq()),
                i as int,
            ) is Some) && (c ==> final(p).cfg() == old(p).cfg() && final(p).tag_set() == old(p).tag_set()
                && crate::char_view::term_texts(final(p).terms_seq()) == (drop_sound_rewrite())(
                crate::char_view::term_texts(old(p).terms_seq()),
                i as int,
            )->0),
        {
            proof {
                crate::char_view::lemma_joined(p.terms_seq());
                reveal_strlit("");
            }
            set_at(p, i, "");
            p.step("8.3.24");
            true
        };
    let ghost p5 = *p;
    proof {
        if idle {
            crate::char_view::lemma_concat_by_texts(p5.terms_seq(), p0.terms_seq());
            crate::char_view::lemma_cond_inert(
                f,
                o,
                |t: Seq<char>, i: int| i + 1 == t.len() && crate::sounds::spec_is_samyoganta(t),
                p5,
            );
        }
    }
    let ghost x6 = *p;
    proof {
        assert forall|q: &mut Prakriya, t: &str, i: usize, b: bool|
            #[trigger] call_ensures(f, (q, t, i), b) && same_shape(x6, *q) && q.cfg() == x6.cfg()
                && t@ == concat_texts(q.terms_seq()) && (i as int) < t@.len() implies same_but_log(
            *q,
            *final(q),
        ) && b == (samyoganta_accepts())(crate::char_view::term_texts(q.terms_seq()), i as int) by {
            crate::char_view::lemma_joined(q.terms_seq());
        }
        assert forall|q: &mut Prakriya, t: &str, i: usize, c: bool|
            #[trigger] call_ensures(o, (q, t, i), c) && same_shape(x6, *q) && q.cfg() == x6.cfg()
                && t@ == concat_texts(q.terms_seq()) && (i as int) < t@.len() implies (c == (drop_sound_rewrite())(
            crate::char_view::term_texts(q.terms_seq()),
            i as int,
        ) is Some) && (c ==> same_shape(*q, *final(q)) && final(q).cfg() == q.cfg()
            && final(q).tag_set() == q.tag_set() && crate::char_view::term_texts(final(q).terms_seq())
            == (drop_sound_rewrite())(crate::char_view::term_texts(q.terms_seq()), i as int)->0) && (!c
            ==> same_but_log(*q, *final(q))) by {}
    }
    let done = char_rule(p, f, o);
    proof {
        lemma_samyoga_texts_len(p0.terms_seq());
        crate::char_view::lemma_joined(p0.terms_seq());
        crate::char_view::lemma_joined(p.terms_seq());
        assert(crate::char_view::settle(samyoganta_accepts(), drop_sound_rewrite(), crate::char_view::term_texts(x6.terms_seq()), 10)
            == crate::char_view::settle(samyoganta_accepts(), drop_sound_rewrite(), crate::char_view::term_texts(x6.terms_seq()), 10));
    }

    proof {
        lemma_same_shape_trans(p0, p5, *p);
        if done {
            lemma_not_samyoganta_quiet(f, o, *p);
        }
    }
    done
}

/// Terms of equal number that each keep all but their text keep the shape.
proof fn lemma_shape_by_terms(a: Prakriya, b: Prakriya)
    requires
        a.terms_seq().len() == b.terms_seq().len(),
        forall|k: int|
            0 <= k < a.terms_seq().len() ==> crate::operations::same_but_text(
                a.terms_seq()[k],
                #[trigger] b.terms_seq()[k],
            ),
    ensures
        same_shape(a, b),
{
    assert forall|k: int| 0 <= k < a.terms_seq().len() implies crate::operations::same_but_text(
        #[trigger] a.terms_seq()[k],
        b.terms_seq()[k],
    ) by {
        assert(crate::operations::same_but_text(a.terms_seq()[k], b.terms_seq()[k]));
    }
}

/// Whether `b` is `a` after 8.2.7 (nalopaḥ prātipadikāntasya) and its exception 8.2.8
/// (`try_na_lopa`).
#[verifier::opaque]
pub open spec fn na_lopa_step(a: Prakriya, b: Prakriya) -> bool {
    let ts = a.terms_seq();
    &&& (forall|i: int| is_last_tagged(ts, T::Sup, i) ==> !na_lopa_applies(ts, i)) ==> b == a
    &&& forall|i: int|
        is_last_tagged(ts, T::Sup, i) && na_lopa_applies(ts, i) ==> if na_lopa_blocked(ts[i]) {
            Prakriya::stepped(a, b, "8.2.8")
        } else {
            crate::operators::term_rule_applied(
                a,
                b,
                "8.2.7",
                i - 1,
                crate::operations::replace_antya(ts[i - 1].text@, ""@),
            )
        }
}

/// Whether `b` is `a` after the change of `r` to `l` (`try_change_r_to_l`).
#[verifier::opaque]
pub open spec fn ra_la_step(a: Prakriya, b: Prakriya) -> bool {
    &&& Prakriya::revised(a, b)
    &&& b.terms_seq().len() == a.terms_seq().len()
    &&& forall|i: int|
        0 <= i < a.terms_seq().len() ==> #[trigger] pada_8_2::ra_la_done(
            a.cfg().rule_choices@,
            a.terms_seq(),
            b.terms_seq(),
            i,
        )
}

/// Whether `b` is `a` after the rules of lopa for samyogas and `s`
/// (`try_lopa_of_samyoganta_and_s`): its exact result where the rules settle.
#[verifier::opaque]
pub open spec fn samyoga_step(a: Prakriya, b: Prakriya) -> bool {
    &&& same_shape(a, b)
    &&& samyoga_rules_idle(a.terms_seq()) ==> crate::char_view::term_texts(b.terms_seq())
        == crate::char_view::term_texts(a.terms_seq())
    &&& samyoga_texts(a.terms_seq()) is Some ==> crate::char_view::term_texts(b.terms_seq()) == samyoga_texts(a.terms_seq())->0 && b.cfg() == a.cfg()
}

/// Whether `b` is `a` after the rules on `h` (`try_ha_adesha`).
#[verifier::opaque]
pub open spec fn ha_adesha_step(a: Prakriya, b: Prakriya) -> bool {
    &&& Prakriya::revised(a, b)
    &&& b.terms_seq().len() == a.terms_seq().len()
    &&& forall|i: int|
        0 <= i < a.terms_seq().len() ==> #[trigger] pada_8_2::ha_adesha_done(
            a.cfg().rule_choices@,
            a.terms_seq(),
            b.terms_seq(),
            i,
        )
}

/// Whether `b` is `a` after the rules that add a final `r` (`try_add_final_r`).
#[verifier::opaque]
pub open spec fn final_r_step(a: Prakriya, b: Prakriya) -> bool {
    &&& Prakriya::revised(a, b)
    &&& exists|x: Seq<Term>|
        #[trigger] pada_8_2::final_r_done(a.cfg().rule_choices@, a.terms_seq(), x, b.terms_seq())
}

/// Whether `b` is `a` after the lengthening of the vowel of the dhatu
/// (`try_lengthen_dhatu_vowel`).
#[verifier::opaque]
pub open spec fn lengthen_step(a: Prakriya, b: Prakriya) -> bool {
    let ts = a.terms_seq();
    &&& (forall|d: int| !crate::abhyasasya::is_first_tagged(ts, T::Dhatu, d)) ==> b == a
    &&& forall|d: int|
        crate::abhyasasya::is_first_tagged(ts, T::Dhatu, d) ==> {
            let m = next_nonempty(ts, d + 1);
            if m == -1 {
                b == a
            } else {
                pada_8_2::lengthen_done(a, b, d, m)
            }
        }
}

/// Whether `b` is `a` after the change of `C` to `S` and its kin (`try_ch_to_s`).
#[verifier::opaque]
pub open spec fn ch_to_s_step(a: Prakriya, b: Prakriya) -> bool {
    &&& Prakriya::rewrote(a, b)
    &&& b.terms_seq().len() == a.terms_seq().len()
    &&& forall|i: int|
        0 <= i < a.terms_seq().len() ==> #[trigger] pada_8_2::ch_to_s_done(
            a.terms_seq(),
            b.terms_seq(),
            i,
        )
}

/// Whether `b` is `a` after the passes of `per_term_1b`.
#[verifier::opaque]
pub open spec fn per_term_1b_step(a: Prakriya, b: Prakriya) -> bool {
    &&& Prakriya::rewrote(a, b)
    &&& b.terms_seq().len() == a.terms_seq().len()
    &&& exists|x: Seq<Term>, y: Seq<Term>|
        #[trigger] pada_8_2::passes_1b(a.terms_seq(), x, y, b.terms_seq())
}

/// Whether `b` is `a` after the passes of `per_term_1c`.
#[verifier::opaque]
pub open spec fn per_term_1c_step(a: Prakriya, b: Prakriya) -> bool {
    &&& Prakriya::rewrote(a, b)
    &&& b.terms_seq().len() == a.terms_seq().len()
    &&& exists|x: Seq<Term>, y: Seq<Term>|
        #[trigger] pada_8_2::passes_1c(a.terms_seq(), x, y, b.terms_seq())
}

/// Whether `b` is `a` after the rules of murdhanya (`try_murdhanya`).
#[verifier::opaque]
pub open spec fn murdhanya_step(a: Prakriya, b: Prakriya) -> bool {
    &&& Prakriya::revised(a, b)
    &&& exists|x: Seq<Term>, m: Prakriya|
        #[trigger] pada_8_3::murdhanya_s_done(a.terms_seq(), x, m.terms_seq())
            && Prakriya::rewrote(a, m) && pada_8_3::murdhanya_dha_done(m, b)
}

/// Whether `b` is `a` after 8.3.24 (`try_mn_to_anusvara`): its exact result where the rules settle.
#[verifier::opaque]
pub open spec fn mn_step(a: Prakriya, b: Prakriya) -> bool {
    &&& same_shape(a, b)
    &&& no_mn_before_jhal(concat_texts(a.terms_seq())) ==> b.terms_seq() == a.terms_seq()
    &&& mn_texts(a.terms_seq()) is Some ==> crate::char_view::term_texts(b.terms_seq()) == mn_texts(a.terms_seq())->0 && b.cfg() == a.cfg()
}

/// Whether `b` is `a` after the lopa of `r` (`try_ra_lopa`).
#[verifier::opaque]
pub open spec fn ra_lopa_step(a: Prakriya, b: Prakriya) -> bool {
    &&& Prakriya::rewrote(a, b)
    &&& b.terms_seq().len() == a.terms_seq().len()
    &&& forall|i: int|
        0 <= i < a.terms_seq().len() ==> ra_lopa_result(
            a.terms_seq()[i],
            #[trigger] b.terms_seq()[i],
            next_nonempty(a.terms_seq(), i + 1) == -1,
        )
}

/// Whether `b` is `a` after the rules of natva (`try_natva`): its exact result where the rules settle.
#[verifier::opaque]
pub open spec fn natva_step(a: Prakriya, b: Prakriya) -> bool {
    &&& same_shape(a, b)
    &&& natva_blocked(a.terms_seq()) ==> b == a
    &&& (forall|i: int| !#[trigger] natva_left(concat_texts(a.terms_seq()), i))
        ==> b.terms_seq() == a.terms_seq()
    &&& natva_texts(a.terms_seq()) is Some ==> crate::char_view::term_texts(b.terms_seq()) == natva_texts(a.terms_seq())->0 && b.cfg() == a.cfg()
}

/// Whether `b` is `a` after 8.4.40 and 8.4.41 (`try_change_stu_to_parasavarna`): its exact
/// result where the rules settle.
#[verifier::opaque]
pub open spec fn stu_step(a: Prakriya, b: Prakriya) -> bool {
    &&& same_shape(a, b)
    &&& no_stu_contact(concat_texts(a.terms_seq())) ==> b.terms_seq() == a.terms_seq()
    &&& stu_texts(a.terms_seq()) is Some ==> crate::char_view::term_texts(b.terms_seq()) == stu_texts(a.terms_seq())->0 && b.cfg() == a.cfg()
}

/// Whether `b` is `a` after the lopa of `Q` (`try_dha_lopa`).
#[verifier::opaque]
pub open spec fn dha_lopa_step(a: Prakriya, b: Prakriya) -> bool {
    &&& Prakriya::rewrote(a, b)
    &&& b.terms_seq().len() == a.terms_seq().len()
    &&& forall|i: int|
        0 <= i < a.terms_seq().len() ==> #[trigger] dha_lopa_done(a.terms_seq(), b.terms_seq(), i)
}

/// Whether `b` is `a` after 8.4.53 to 8.4.56 (`try_jhal_adesha`): its exact result where the rules settle.
#[verifier::opaque]
pub open spec fn jhal_step(a: Prakriya, b: Prakriya) -> bool {
    &&& same_shape(a, b)
    &&& jhal_rules_idle(a.terms_seq(), a.cfg().rule_choices@) ==> crate::char_view::term_texts(
        b.terms_seq(),
    ) == crate::char_view::term_texts(a.terms_seq())
    &&& jhal_adesha_texts(a.terms_seq(), a.cfg().rule_choices@) is Some ==> crate::char_view::term_texts(b.terms_seq()) == jhal_adesha_texts(a.terms_seq(), a.cfg().rule_choices@)->0 && b.cfg() == a.cfg()
}

/// Whether `b` is `a` after 8.4.58 to 8.4.65 (`try_to_savarna`): its exact result where the rules settle.
#[verifier::opaque]
pub open spec fn savarna_step(a: Prakriya, b: Prakriya) -> bool {
    &&& same_shape(a, b)
    &&& pada_8_4::savarna_rules_idle(a.terms_seq(), a.cfg().rule_choices@) ==> b.terms_seq()
        == a.terms_seq()
    &&& pada_8_4::savarna_texts(a.terms_seq(), a.cfg().rule_choices@) is Some ==> crate::char_view::term_texts(b.terms_seq()) == pada_8_4::savarna_texts(a.terms_seq(), a.cfg().rule_choices@)->0 && b.cfg() == a.cfg()
}

/// Whether `ps` are the states of `run`, one more than its steps: each state is the one before
/// after the step, in the order of `run`.
pub open spec fn tripadi_trace(ps: Seq<Prakriya>) -> bool {
    &&& ps.len() == 18
    &&& na_lopa_step(ps[0], ps[1])
    &&& ra_la_step(ps[1], ps[2])
    &&& samyoga_step(ps[2], ps[3])
    &&& ha_adesha_step(ps[3], ps[4])
    &&& final_r_step(ps[4], ps[5])
    &&& lengthen_step(ps[5], ps[6])
    &&& ch_to_s_step(ps[6], ps[7])
    &&& per_term_1b_step(ps[7], ps[8])
    &&& per_term_1c_step(ps[8], ps[9])
    &&& murdhanya_step(ps[9], ps[10])
    &&& mn_step(ps[10], ps[11])
    &&& ra_lopa_step(ps[11], ps[12])
    &&& natva_step(ps[12], ps[13])
    &&& stu_step(ps[13], ps[14])
    &&& dha_lopa_step(ps[14], ps[15])
    &&& jhal_step(ps[15], ps[16])
    &&& savarna_step(ps[16], ps[17])
}

/// The states of `run`, gathered in order.
proof fn lemma_tripadi_trace(q0: Prakriya, q1: Prakriya, q2: Prakriya, q3: Prakriya, q4: Prakriya, q5: Prakriya, q6: Prakriya, q7: Prakriya, q8: Prakriya, q9: Prakriya, q10: Prakriya, q11: Prakriya, q12: Prakriya, q13: Prakriya, q14: Prakriya, q15: Prakriya, q16: Prakriya, q17: Prakriya) -> (ps: Seq<Prakriya>)
    requires
        na_lopa_step(q0, q1),
        ra_la_step(q1, q2),
        samyoga_step(q2, q3),
        ha_adesha_step(q3, q4),
        final_r_step(q4, q5),
        lengthen_step(q5, q6),
        ch_to_s_step(q6, q7),
        per_term_1b_step(q7, q8),
        per_term_1c_step(q8, q9),
        murdhanya_step(q9, q10),
        mn_step(q10, q11),
        ra_lopa_step(q11, q12),
        natva_step(q12, q13),
        stu_step(q13, q14),
        dha_lopa_step(q14, q15),
        jhal_step(q15, q16),
        savarna_step(q16, q17),
    ensures
        tripadi_trace(ps),
        ps[0] == q0,
        ps[17] == q17,
{
    seq![q0, q1, q2, q3, q4, q5, q6, q7, q8, q9, q10, q11, q12, q13, q14, q15, q16, q17]
}

/// Runs the rules of the tripadi (8.2.1 to the end of 8.4) in order, each once. The tripadi
/// changes the texts of the terms and nothing else of them; the states it passes through are
/// those of `tripadi_trace`, one step of it after the other.
pub fn run(p: &mut Prakriya)
    requires
        old(p).terms_seq().len() >= 2,
        forall|i: int| is_last_tagged(old(p).terms_seq(), T::Sup, i) ==> i >= 1,
    ensures
        same_shape(*old(p), *final(p)),
        exists|ps: Seq<Prakriya>|
            #[trigger] tripadi_trace(ps) && ps[0] == *old(p) && ps[17] == *final(p),
{
    let ghost p0 = *p;
    // Ashtadhyayi 8.2
    try_na_lopa(p);
    let ghost p1 = *p;
    assert(na_lopa_step(p0, p1)) by {
        reveal(na_lopa_step);
    }
    proof {
        let ts = p0.terms_seq();
        if exists|i: int| is_last_tagged(ts, T::Sup, i) {
            let i = choose|i: int| is_last_tagged(ts, T::Sup, i);
            if na_lopa_applies(ts, i) && !na_lopa_blocked(ts[i]) {
                lemma_shape_by_terms(p0, p1);
            }
        }
        assert(same_shape(p0, p1));
    }
    pada_8_2::try_change_r_to_l(p);
    let ghost p2 = *p;
    assert(ra_la_step(p1, p2)) by {
        reveal(ra_la_step);
    }
    proof {
        assert forall|k: int| 0 <= k < p1.terms_seq().len() implies crate::operations::same_but_text(
            p1.terms_seq()[k],
            #[trigger] p2.terms_seq()[k],
        ) by {
            assert(pada_8_2::ra_la_done(p1.cfg().rule_choices@, p1.terms_seq(), p2.terms_seq(), k));
        }
        lemma_shape_by_terms(p1, p2);
        lemma_same_shape_trans(p0, p1, p2);
    }
    try_lopa_of_samyoganta_and_s(p);
    let ghost p3 = *p;
    assert(samyoga_step(p2, p3)) by {
        reveal(samyoga_step);
    }
    proof {
        lemma_same_shape_trans(p0, p2, p3);
    }
    pada_8_2::try_ha_adesha(p);
    let ghost p4 = *p;
    assert(ha_adesha_step(p3, p4)) by {
        reveal(ha_adesha_step);
    }
    proof {
        assert forall|k: int| 0 <= k < p3.terms_seq().len() implies crate::operations::same_but_text(
            p3.terms_seq()[k],
            #[trigger] p4.terms_seq()[k],
        ) by {
            assert(pada_8_2::ha_adesha_done(p3.cfg().rule_choices@, p3.terms_seq(), p4.terms_seq(), k));
        }
        lemma_shape_by_terms(p3, p4);
        lemma_same_shape_trans(p0, p3, p4);
    }
    pada_8_2::try_add_final_r(p);
    let ghost p5 = *p;
    assert(final_r_step(p4, p5)) by {
        reveal(final_r_step);
    }
    proof {
        let a = choose|a: Seq<crate::term::Term>|
            #[trigger] pada_8_2::final_r_done(p4.cfg().rule_choices@, p4.terms_seq(), a, p5.terms_seq());
        assert forall|k: int| 0 <= k < p4.terms_seq().len() implies crate::operations::same_but_text(
            p4.terms_seq()[k],
            #[trigger] p5.terms_seq()[k],
        ) by {
            let ts = p4.terms_seq();
            let n = ts.len();
            assert(crate::operations::same_but_text(ts[k], a[k]));
            let l = pada_8_2::prev_nonempty(a, a.len() - 1);
            assert(crate::operations::same_but_text(a[k], p5.terms_seq()[k]));
        }
        lemma_shape_by_terms(p4, p5);
        lemma_same_shape_trans(p0, p4, p5);
    }
    pada_8_2::try_lengthen_dhatu_vowel(p);
    let ghost p6 = *p;
    assert(lengthen_step(p5, p6)) by {
        reveal(lengthen_step);
    }
    proof {
        let ts = p5.terms_seq();
        if exists|d: int| crate::abhyasasya::is_first_tagged(ts, T::Dhatu, d) {
            let d = choose|d: int| crate::abhyasasya::is_first_tagged(ts, T::Dhatu, d);
            let m = next_nonempty(ts, d + 1);
            if m != -1 {
                lemma_shape_by_terms(p5, p6);
            }
        }
        assert(same_shape(p5, p6));
        lemma_same_shape_trans(p0, p5, p6);
    }
    pada_8_2::try_ch_to_s(p);
    let ghost p7 = *p;
    assert(ch_to_s_step(p6, p7)) by {
        reveal(ch_to_s_step);
    }
    proof {
        assert forall|k: int| 0 <= k < p6.terms_seq().len() implies crate::operations::same_but_text(
            p6.terms_seq()[k],
            #[trigger] p7.terms_seq()[k],
        ) by {
            assert(pada_8_2::ch_to_s_done(p6.terms_seq(), p7.terms_seq(), k));
        }
        lemma_shape_by_terms(p6, p7);
        lemma_same_shape_trans(p0, p6, p7);
    }
    pada_8_2::per_term_1b(p);
    let ghost p8 = *p;
    assert(per_term_1b_step(p7, p8)) by {
        reveal(per_term_1b_step);
    }
    proof {
        let (a, b) = choose|a: Seq<crate::term::Term>, b: Seq<crate::term::Term>|
            #[trigger] pada_8_2::passes_1b(p7.terms_seq(), a, b, p8.terms_seq());
        assert forall|k: int| 0 <= k < p7.terms_seq().len() implies crate::operations::same_but_text(
            p7.terms_seq()[k],
            #[trigger] p8.terms_seq()[k],
        ) by {
            assert(pada_8_2::cu_to_ku_done(p7.terms_seq(), a, k));
            assert(pada_8_2::bash_to_bhaz_done(a, b, k));
            assert(pada_8_2::jhal_to_jash_done(b, p8.terms_seq(), k));
        }
        lemma_shape_by_terms(p7, p8);
        lemma_same_shape_trans(p0, p7, p8);
    }
    pada_8_2::per_term_1c(p);
    let ghost p9 = *p;
    assert(per_term_1c_step(p8, p9)) by {
        reveal(per_term_1c_step);
    }
    proof {
        let (a, b) = choose|a: Seq<crate::term::Term>, b: Seq<crate::term::Term>|
            #[trigger] pada_8_2::passes_1c(p8.terms_seq(), a, b, p9.terms_seq());
        assert forall|k: int| 0 <= k < p8.terms_seq().len() implies crate::operations::same_but_text(
            p8.terms_seq()[k],
            #[trigger] p9.terms_seq()[k],
        ) by {
            assert(crate::operations::same_but_text(p8.terms_seq()[k], a[k]));
            assert(pada_8_2::zq_to_k_done(a, b, k));
            assert(pada_8_2::m_to_n_done(b, p9.terms_seq(), k));
        }
        lemma_shape_by_terms(p8, p9);
        lemma_same_shape_trans(p0, p8, p9);
    }

    // Ashtadhyayi 8.3
    pada_8_3::try_murdhanya(p);
    let ghost p10 = *p;
    assert(murdhanya_step(p9, p10)) by {
        reveal(murdhanya_step);
    }
    proof {
        let (a, b) = choose|a: Seq<crate::term::Term>, b: Prakriya|
            #[trigger] pada_8_3::murdhanya_s_done(p9.terms_seq(), a, b.terms_seq()) && Prakriya::rewrote(
                p9,
                b,
            ) && pada_8_3::murdhanya_dha_done(b, p10);
        assert forall|k: int| 0 <= k < p9.terms_seq().len() implies crate::operations::same_but_text(
            p9.terms_seq()[k],
            #[trigger] p10.terms_seq()[k],
        ) by {
            assert(crate::operations::same_but_text(p9.terms_seq()[k], a[k]));
            assert(pada_8_3::sas_to_sha_done(a, b.terms_seq(), k));
        }
        lemma_shape_by_terms(p9, p10);
        lemma_same_shape_trans(p0, p9, p10);
    }
    try_mn_to_anusvara(p);
    let ghost p11 = *p;
    assert(mn_step(p10, p11)) by {
        reveal(mn_step);
    }
    proof {
        lemma_same_shape_trans(p0, p10, p11);
    }
    try_ra_lopa(p);
    let ghost p12 = *p;
    assert(ra_lopa_step(p11, p12)) by {
        reveal(ra_lopa_step);
    }
    proof {
        assert forall|k: int| 0 <= k < p11.terms_seq().len() implies crate::operations::same_but_text(
            p11.terms_seq()[k],
            #[trigger] p12.terms_seq()[k],
        ) by {
            assert(ra_lopa_result(
                p11.terms_seq()[k],
                p12.terms_seq()[k],
                next_nonempty(p11.terms_seq(), k + 1) == -1,
            ));
        }
        lemma_shape_by_terms(p11, p12);
        lemma_same_shape_trans(p0, p11, p12);
    }

    // Ashtadhyayi 8.4
    try_natva(p);
    let ghost p13 = *p;
    assert(natva_step(p12, p13)) by {
        reveal(natva_step);
    }
    proof {
        lemma_same_shape_trans(p0, p12, p13);
    }
    try_change_stu_to_parasavarna(p);
    let ghost p14 = *p;
    assert(stu_step(p13, p14)) by {
        reveal(stu_step);
    }
    proof {
        lemma_same_shape_trans(p0, p13, p14);
    }
    try_dha_lopa(p);
    let ghost p15 = *p;
    assert(dha_lopa_step(p14, p15)) by {
        reveal(dha_lopa_step);
    }
    proof {
        assert forall|k: int| 0 <= k < p14.terms_seq().len() implies crate::operations::same_but_text(
            p14.terms_seq()[k],
            #[trigger] p15.terms_seq()[k],
        ) by {
            assert(dha_lopa_done(p14.terms_seq(), p15.terms_seq(), k));
        }
        lemma_shape_by_terms(p14, p15);
        lemma_same_shape_trans(p0, p14, p15);
    }
    try_jhal_adesha(p);
    let ghost p16 = *p;
    assert(jhal_step(p15, p16)) by {
        reveal(jhal_step);
    }
    proof {
        lemma_same_shape_trans(p0, p15, p16);
    }
    pada_8_4::try_to_savarna(p);
    assert(savarna_step(p16, *p)) by {
        reveal(savarna_step);
    }
    proof {
        lemma_same_shape_trans(p0, p16, *p);
        let ps = lemma_tripadi_trace(p0, p1, p2, p3, p4, p5, p6, p7, p8, p9, p10, p11, p12, p13, p14, p15, p16, *p);
    }
}

} // verus!
