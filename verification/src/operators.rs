//! Operators: closures that change a `Term`, made from static parameters.
//!
//! A rule is a filter, which says whether it applies, and an operator, which changes the
//! derivation. The functions here return `Term` operators; `t` turns one into a `Prakriya`
//! operator.
use crate::constants::Tag as T;
use crate::operations::{
    find_last_vowel, insert_after_last_vowel, replace_adi, replace_antya, replace_ti,
    replace_upadha, same_but_text, same_but_text_and_tags, splice,
};
use crate::prakriya::{Prakriya, Rule};
use crate::strings;
use crate::it_samjna::{has_upadesha_at, it_samjna_outcome};
use crate::term::Term;
use vstd::prelude::*;

verus! {

// Substitution
// ============
/// Replaces the first sound in the given term.
pub fn adi(sub: &str) -> (r: impl Fn(&mut Term) + '_)
    ensures
        forall|t: &mut Term| call_requires(r, (t,)),
        forall|t: &mut Term|
            #[trigger] call_ensures(r, (t,), ()) ==> final(t).text@ == replace_adi(t.text@, sub@)
                && same_but_text(*t, *final(t)),
{
    move |t: &mut Term|
        ensures
            final(t).text@ == replace_adi(old(t).text@, sub@),
            same_but_text(*old(t), *final(t)),
        {
            let n = t.text.as_str().unicode_len();
            if n > 0 {
                t.text = splice(t.text.as_str(), 0, 1, sub);
            }
        }
}

/// Replaces the last sound in the given term.
pub fn antya(sub: &str) -> (r: impl Fn(&mut Term) + '_)
    ensures
        forall|t: &mut Term| call_requires(r, (t,)),
        forall|t: &mut Term|
            #[trigger] call_ensures(r, (t,), ()) ==> final(t).text@ == replace_antya(t.text@, sub@)
                && same_but_text(*t, *final(t)),
{
    move |t: &mut Term|
        ensures
            final(t).text@ == replace_antya(old(t).text@, sub@),
            same_but_text(*old(t), *final(t)),
        {
            let n = t.text.as_str().unicode_len();
            if n > 0 {
                t.text = splice(t.text.as_str(), n - 1, n, sub);
                assert(t.text@ =~= replace_antya(old(t).text@, sub@));
            }
        }
}

/// Returns `text` with its penultimate sound replaced by `sub`.
pub fn set_upadha(text: &str, sub: &str) -> (r: String)
    requires
        text@.len() >= 2,
    ensures
        r@ == replace_upadha(text@, sub@),
{
    let n = text.unicode_len();
    splice(text, n - 2, n - 1, sub)
}

/// Replaces the penultimate sound in the given term.
pub fn upadha(sub: &str) -> (r: impl Fn(&mut Term) + '_)
    ensures
        forall|t: &mut Term| call_requires(r, (t,)),
        forall|t: &mut Term|
            #[trigger] call_ensures(r, (t,), ()) ==> final(t).text@ == replace_upadha(t.text@, sub@)
                && same_but_text(*t, *final(t)),
{
    move |t: &mut Term|
        ensures
            final(t).text@ == replace_upadha(old(t).text@, sub@),
            same_but_text(*old(t), *final(t)),
        {
            if t.upadha().is_some() {
                t.text = set_upadha(t.text.as_str(), sub);
            }
        }
}

/// Inserts some text immediately after the term's last vowel (1.1.47).
pub fn mit(sub: &'static str) -> (r: impl Fn(&mut Term))
    ensures
        forall|t: &mut Term| call_requires(r, (t,)),
        forall|t: &mut Term|
            #[trigger] call_ensures(r, (t,), ()) ==> final(t).text@ == insert_after_last_vowel(
                t.text@,
                sub@,
            ) && same_but_text(*t, *final(t)),
{
    move |t: &mut Term|
        ensures
            final(t).text@ == insert_after_last_vowel(old(t).text@, sub@),
            same_but_text(*old(t), *final(t)),
        {
            if let Some(i) = find_last_vowel(t.text.as_str()) {
                t.text = splice(t.text.as_str(), i + 1, i + 1, sub);
            }
        }
}

/// Replaces the ti of the term, which starts at its last vowel (1.1.64).
pub fn ti(sub: &'static str) -> (r: impl Fn(&mut Term))
    ensures
        forall|t: &mut Term| call_requires(r, (t,)),
        forall|t: &mut Term|
            #[trigger] call_ensures(r, (t,), ()) ==> final(t).text@ == replace_ti(t.text@, sub@)
                && same_but_text(*t, *final(t)),
{
    move |t: &mut Term|
        ensures
            final(t).text@ == replace_ti(old(t).text@, sub@),
            same_but_text(*old(t), *final(t)),
        {
            if let Some(i) = find_last_vowel(t.text.as_str()) {
                let n = t.text.as_str().unicode_len();
                t.text = splice(t.text.as_str(), i, n, sub);
                assert(t.text@ =~= replace_ti(old(t).text@, sub@));
            }
        }
}

/// Replaces all of the text of the given term.
pub fn text(sub: &'static str) -> (r: impl Fn(&mut Term))
    ensures
        forall|t: &mut Term| call_requires(r, (t,)),
        forall|t: &mut Term|
            #[trigger] call_ensures(r, (t,), ()) ==> final(t).text@ == sub@ && same_but_text(*t, *final(t)),
{
    move |t: &mut Term|
        ensures
            final(t).text@ == sub@,
            same_but_text(*old(t), *final(t)),
        {
            t.text = strings::string_from(sub);
        }
}

/// The first index at which `items` holds the string `s`, or -1 where there is none.
pub open spec fn str_index(items: Seq<&str>, s: Seq<char>) -> int
    decreases items.len(),
{
    if items.len() == 0 {
        -1
    } else {
        let i = str_index(items.drop_last(), s);
        if i >= 0 {
            i
        } else if items.last()@ == s {
            items.len() - 1
        } else {
            -1
        }
    }
}

pub(crate) proof fn lemma_str_index(items: Seq<&str>, s: Seq<char>)
    ensures
        (str_index(items, s) == -1 && forall|k: int|
            0 <= k < items.len() ==> (#[trigger] items[k])@ != s) || (0 <= str_index(items, s)
            < items.len() && items[str_index(items, s)]@ == s && forall|k: int|
            0 <= k < str_index(items, s) ==> (#[trigger] items[k])@ != s),
    decreases items.len(),
{
    if items.len() > 0 {
        let front = items.drop_last();
        lemma_str_index(front, s);
        assert forall|k: int| 0 <= k < front.len() implies (#[trigger] front[k]) == items[k] by {}
        let i = str_index(front, s);
        if i >= 0 {
            assert(str_index(items, s) == i);
            assert(items[i] == front[i]);
            assert forall|k: int| 0 <= k < i implies (#[trigger] items[k])@ != s by {
                assert(items[k] == front[k]);
            }
        } else if items.last()@ == s {
            assert(str_index(items, s) == items.len() - 1);
            assert forall|k: int| 0 <= k < items.len() - 1 implies (#[trigger] items[k])@ != s by {
                assert(items[k] == front[k]);
            }
        } else {
            assert forall|k: int| 0 <= k < items.len() implies (#[trigger] items[k])@ != s by {
                if k < items.len() - 1 {
                    assert(items[k] == front[k]);
                }
            }
        }
    }
}

/// Returns the entry of `new` at the position where `old` holds `needle`, if any.
pub fn yatha<'a>(needle: &str, old: &[&'a str], new: &[&'a str]) -> (r: Option<&'a str>)
    requires
        str_index(old@, needle@) < new@.len(),
    ensures
        r == if str_index(old@, needle@) >= 0 {
            Some(new@[str_index(old@, needle@)])
        } else {
            None
        },
{
    let mut i: usize = 0;
    while i < old.len()
        invariant
            i <= old@.len(),
            str_index(old@, needle@) < new@.len(),
            forall|k: int| 0 <= k < i ==> (#[trigger] old@[k])@ != needle@,
        decreases old@.len() - i,
    {
        if strings::str_eq(needle, old[i]) {
            proof {
                lemma_str_index(old@, needle@);
            }
            return Some(new[i]);
        }
        i = i + 1;
    }
    proof {
        lemma_str_index(old@, needle@);
    }
    None
}

/// Replaces the term's text with the entry of `news` at the position where `olds` holds it.
pub fn text_yatha(term: &mut Term, olds: &[&str], news: &[&str])
    requires
        olds@.len() == news@.len(),
    ensures
        final(term).text@ == if str_index(olds@, old(term).text@) >= 0 {
            news@[str_index(olds@, old(term).text@)]@
        } else {
            old(term).text@
        },
        same_but_text(*old(term), *final(term)),
{
    let mut i: usize = 0;
    while i < olds.len()
        invariant
            i <= olds@.len(),
            olds@.len() == news@.len(),
            *term == *old(term),
            forall|k: int| 0 <= k < i ==> (#[trigger] olds@[k])@ != term.text@,
        decreases olds@.len() - i,
    {
        if strings::str_eq(term.text.as_str(), olds[i]) {
            proof {
                lemma_str_index(olds@, term.text@);
            }
            term.text = strings::string_from(news[i]);
            return;
        }
        i = i + 1;
    }
    proof {
        lemma_str_index(olds@, term.text@);
    }
}

// Lopa
// ====
/// Deletes all of the text in the given term.
pub fn lopa(t: &mut Term)
    ensures
        final(t).text@ == Seq::<char>::empty(),
        same_but_text(*old(t), *final(t)),
{
    t.text = String::new();
}

/// Deletes all of the text in the given term through luk.
pub fn luk(t: &mut Term)
    ensures
        final(t).text@ == Seq::<char>::empty(),
        final(t).tags@ == old(t).tags@.insert(T::Luk),
        same_but_text_and_tags(*old(t), *final(t)),
{
    lopa(t);
    t.add_tag(T::Luk);
}

/// Deletes all of the text in the given term through slu.
pub fn slu(t: &mut Term)
    ensures
        final(t).text@ == Seq::<char>::empty(),
        final(t).tags@ == old(t).tags@.insert(T::Slu),
        same_but_text_and_tags(*old(t), *final(t)),
{
    lopa(t);
    t.add_tag(T::Slu);
}

/// Deletes all of the text in the given term through lup.
pub fn lup(t: &mut Term)
    ensures
        final(t).text@ == Seq::<char>::empty(),
        final(t).tags@ == old(t).tags@.insert(T::Lup),
        same_but_text_and_tags(*old(t), *final(t)),
{
    lopa(t);
    t.add_tag(T::Lup);
}

// Tags
// ====
/// Adds the given samjna.
pub fn samjna(t: &mut Term, tag: T)
    ensures
        final(t).tags@ == old(t).tags@.insert(tag),
        final(t).text == old(t).text,
        same_but_text_and_tags(*old(t), *final(t)),
{
    t.add_tag(tag);
}

/// Leaves the term as it is.
pub fn none(_t: &mut Term)
    ensures
        *final(_t) == *old(_t),
{
}

/// Returns an operator that adds `tag`.
pub fn add_tag(tag: T) -> (r: impl Fn(&mut Term))
    ensures
        forall|t: &mut Term| call_requires(r, (t,)),
        forall|t: &mut Term|
            #[trigger] call_ensures(r, (t,), ()) ==> final(t).tags@ == t.tags@.insert(tag) && final(t).text
                == t.text && same_but_text_and_tags(*t, *final(t)),
{
    move |t: &mut Term|
        ensures
            final(t).tags@ == old(t).tags@.insert(tag),
            final(t).text == old(t).text,
            same_but_text_and_tags(*old(t), *final(t)),
        {
            t.add_tag(tag)
        }
}

// Rules on one term of a derivation
// =================================
/// Whether the terms `b` are the terms `a` with the text of term `i` set to `text` and
/// nothing else changed.
pub open spec fn retexted(a: Seq<Term>, b: Seq<Term>, i: int, text: Seq<char>) -> bool {
    &&& 0 <= i < a.len()
    &&& b.len() == a.len()
    &&& forall|j: int| 0 <= j < a.len() && j != i ==> b[j] == a[j]
    &&& same_but_text(a[i], b[i])
    &&& b[i].text@ == text
}

/// Whether `b` is `a` after a rule `code` that set the text of term `i` to `text`.
pub open spec fn term_rule_applied(a: Prakriya, b: Prakriya, code: Rule, i: int, text: Seq<
    char,
>) -> bool {
    &&& retexted(a.terms_seq(), b.terms_seq(), i, text)
    &&& Prakriya::logged(a.steps(), b.steps(), a.cfg().log_steps, code, b.terms_seq())
    &&& b.tag_set() == a.tag_set()
    &&& b.cfg() == a.cfg()
    &&& b.decisions() == a.decisions()
}

/// Applies rule `code` to term `i`, if there is one, by replacing its first sound with `sub`:
/// `op_term` with `adi`.
pub(crate) fn term_adi(p: &mut Prakriya, code: Rule, i: usize, sub: &str) -> (r: bool)
    ensures
        r == (i < old(p).terms_seq().len()),
        !r ==> *final(p) == *old(p),
        r ==> term_rule_applied(
            *old(p),
            *final(p),
            code,
            i as int,
            replace_adi(old(p).terms_seq()[i as int].text@, sub@),
        ),
{
    let op = |t: &mut Term|
        ensures
            final(t).text@ == replace_adi(old(t).text@, sub@),
            same_but_text(*old(t), *final(t)),
        {
            crate::operations::adi(t, sub);
        };
    p.op_term(code, i, op)
}

/// Applies rule `code` to term `i`, if there is one, by replacing its last sound with `sub`:
/// `op_term` with `antya`.
pub(crate) fn term_antya(p: &mut Prakriya, code: Rule, i: usize, sub: &str) -> (r: bool)
    ensures
        r == (i < old(p).terms_seq().len()),
        !r ==> *final(p) == *old(p),
        r ==> term_rule_applied(
            *old(p),
            *final(p),
            code,
            i as int,
            replace_antya(old(p).terms_seq()[i as int].text@, sub@),
        ),
{
    let op = |t: &mut Term|
        ensures
            final(t).text@ == replace_antya(old(t).text@, sub@),
            same_but_text(*old(t), *final(t)),
        {
            crate::operations::antya(t, sub);
        };
    p.op_term(code, i, op)
}

/// Applies rule `code` to term `i`, if there is one, by setting its text to `sub`: `op_term`
/// with `text`.
pub(crate) fn term_text(p: &mut Prakriya, code: Rule, i: usize, sub: &str) -> (r: bool)
    ensures
        r == (i < old(p).terms_seq().len()),
        !r ==> *final(p) == *old(p),
        r ==> term_rule_applied(*old(p), *final(p), code, i as int, sub@),
{
    let op = |t: &mut Term|
        ensures
            final(t).text@ == sub@,
            same_but_text(*old(t), *final(t)),
        {
            t.text = strings::string_from(sub);
        };
    p.op_term(code, i, op)
}

/// Applies the optional rule `code` to term `i` by replacing its last sound with `sub`, where
/// the rule choices allow it, and records the decision either way: `op_optional` with `antya`.
pub(crate) fn term_antya_optional(p: &mut Prakriya, code: Rule, i: usize, sub: &str) -> (r: bool)
    requires
        i < old(p).terms_seq().len(),
    ensures
        r == crate::prakriya::allows(old(p).cfg().rule_choices@, code@),
        r ==> retexted(
            old(p).terms_seq(),
            final(p).terms_seq(),
            i as int,
            replace_antya(old(p).terms_seq()[i as int].text@, sub@),
        ),
        !r ==> final(p).terms_seq() == old(p).terms_seq(),
        Prakriya::revised(*old(p), *final(p)),
{
    let ghost p0 = *p;
    if p.is_allowed(code) {
        let ghost p1 = *p;
        term_antya(p, code, i, sub);
        proof {
            assert(p.decisions().subrange(0, p0.decisions().len() as int) =~= p0.decisions());
            assert(p.steps().subrange(0, p0.steps().len() as int) =~= p0.steps());
        }
        true
    } else {
        p.decline(code);
        proof {
            assert(p.decisions().subrange(0, p0.decisions().len() as int) =~= p0.decisions());
            assert(p.steps().subrange(0, p0.steps().len() as int) =~= p0.steps());
        }
        false
    }
}

/// Applies the optional rule `code` to term `i` by replacing its first sound with `sub`, where
/// the rule choices allow it, and records the decision either way: `op_optional` with `adi`.
pub(crate) fn term_adi_optional(p: &mut Prakriya, code: Rule, i: usize, sub: &str) -> (r: bool)
    requires
        i < old(p).terms_seq().len(),
    ensures
        r == crate::prakriya::allows(old(p).cfg().rule_choices@, code@),
        r ==> retexted(
            old(p).terms_seq(),
            final(p).terms_seq(),
            i as int,
            replace_adi(old(p).terms_seq()[i as int].text@, sub@),
        ),
        !r ==> final(p).terms_seq() == old(p).terms_seq(),
        Prakriya::revised(*old(p), *final(p)),
{
    let ghost p0 = *p;
    if p.is_allowed(code) {
        term_adi(p, code, i, sub);
        proof {
            assert(p.decisions().subrange(0, p0.decisions().len() as int) =~= p0.decisions());
            assert(p.steps().subrange(0, p0.steps().len() as int) =~= p0.steps());
        }
        true
    } else {
        p.decline(code);
        proof {
            assert(p.decisions().subrange(0, p0.decisions().len() as int) =~= p0.decisions());
            assert(p.steps().subrange(0, p0.steps().len() as int) =~= p0.steps());
        }
        false
    }
}

/// Applies the optional rule `code` to term `i` by setting its text to `sub`, where the rule
/// choices allow it, and records the decision either way: `op_optional` with `text`.
pub(crate) fn term_text_optional(p: &mut Prakriya, code: Rule, i: usize, sub: &str) -> (r: bool)
    requires
        i < old(p).terms_seq().len(),
    ensures
        r == crate::prakriya::allows(old(p).cfg().rule_choices@, code@),
        r ==> retexted(old(p).terms_seq(), final(p).terms_seq(), i as int, sub@),
        !r ==> final(p).terms_seq() == old(p).terms_seq(),
        Prakriya::revised(*old(p), *final(p)),
{
    let ghost p0 = *p;
    if p.is_allowed(code) {
        term_text(p, code, i, sub);
        proof {
            assert(p.decisions().subrange(0, p0.decisions().len() as int) =~= p0.decisions());
            assert(p.steps().subrange(0, p0.steps().len() as int) =~= p0.steps());
        }
        true
    } else {
        p.decline(code);
        proof {
            assert(p.decisions().subrange(0, p0.decisions().len() as int) =~= p0.decisions());
            assert(p.steps().subrange(0, p0.steps().len() as int) =~= p0.steps());
        }
        false
    }
}

/// Applies rule `code` to term `i`, if there is one, by replacing its penultimate sound with
/// `sub`: `op_term` with `upadha`.
pub(crate) fn term_upadha(p: &mut Prakriya, code: Rule, i: usize, sub: &str) -> (r: bool)
    ensures
        r == (i < old(p).terms_seq().len()),
        !r ==> *final(p) == *old(p),
        r ==> term_rule_applied(
            *old(p),
            *final(p),
            code,
            i as int,
            replace_upadha(old(p).terms_seq()[i as int].text@, sub@),
        ),
{
    let op = |t: &mut Term|
        ensures
            final(t).text@ == replace_upadha(old(t).text@, sub@),
            same_but_text(*old(t), *final(t)),
        {
            crate::operations::upadha(t, sub);
        };
    p.op_term(code, i, op)
}

/// Applies rule `code` to term `i`, if there is one, by inserting `sub` after its last vowel:
/// `op_term` with `mit`.
pub(crate) fn term_mit(p: &mut Prakriya, code: Rule, i: usize, sub: &str) -> (r: bool)
    ensures
        r == (i < old(p).terms_seq().len()),
        !r ==> *final(p) == *old(p),
        r ==> term_rule_applied(
            *old(p),
            *final(p),
            code,
            i as int,
            insert_after_last_vowel(old(p).terms_seq()[i as int].text@, sub@),
        ),
{
    let op = |t: &mut Term|
        ensures
            final(t).text@ == insert_after_last_vowel(old(t).text@, sub@),
            same_but_text(*old(t), *final(t)),
        {
            crate::operations::mit(t, sub);
        };
    p.op_term(code, i, op)
}

// Substitution of the whole term
// ==============================
/// Whether `b` is `a` after it takes the upadesha `sub`: its former upadesha, if any, is kept
/// among its lakshanas, and the upadesha and the text become `sub`.
pub open spec fn with_upadesha(a: Term, b: Term, sub: Seq<char>) -> bool {
    &&& b.u_is(sub)
    &&& b.text@ == sub
    &&& b.tags == a.tags
    &&& b.gana == a.gana
    &&& b.number == a.number
    &&& b.lakshana@ == match a.u {
        Some(u) => a.lakshana@.push(u),
        None => a.lakshana@,
    }
}

/// Replaces the term at `i`, if there is one, with the upadesha `sub`, keeping its former
/// upadesha among its lakshanas, without running the it-samjna rules.
pub fn upadesha_no_it(p: &mut Prakriya, i: usize, sub: &str)
    ensures
        Prakriya::same_but_terms(*old(p), *final(p)),
        i >= old(p).terms_seq().len() ==> final(p).terms_seq() == old(p).terms_seq(),
        i < old(p).terms_seq().len() ==> {
            &&& final(p).terms_seq().len() == old(p).terms_seq().len()
            &&& forall|k: int|
                0 <= k < old(p).terms_seq().len() && k != i ==> final(p).terms_seq()[k] == old(
                    p,
                ).terms_seq()[k]
            &&& with_upadesha(old(p).terms_seq()[i as int], final(p).terms_seq()[i as int], sub@)
        },
{
    if let Some(t) = p.get_mut(i) {
        match &t.u {
            Some(u) => {
                let former = u.clone();
                t.lakshana.push(former);
            },
            None => {},
        }
        t.set_upadesha(sub);
    }
}

/// Whether `b` is `a` after it takes the upadesha `sub` and the it-samjna rules run on it: its
/// former upadesha, if any, is kept among its lakshanas, its upadesha becomes `sub`, and its
/// text and tags are what the it-samjna rules make of `sub` and the tags of `a`.
pub open spec fn took_upadesha(a: Term, b: Term, sub: Seq<char>) -> bool {
    let res = it_samjna_outcome(sub, sub, a.tags@);
    &&& b.u_is(sub)
    &&& b.text@ == res.0
    &&& b.tags@ == res.1
    &&& b.gana == a.gana
    &&& b.number == a.number
    &&& b.lakshana@ == match a.u {
        Some(u) => a.lakshana@.push(u),
        None => a.lakshana@,
    }
}

/// Whether the terms `b` are the terms `a` with the term at `i` replaced by the upadesha `sub`
/// (`took_upadesha`).
pub open spec fn upadesha_taken(a: Seq<Term>, b: Seq<Term>, i: int, sub: Seq<char>) -> bool {
    &&& 0 <= i < a.len()
    &&& b == a.update(i, b[i])
    &&& took_upadesha(a[i], b[i], sub)
}

/// Whether `b` is `a` with the term at `i` replaced by the upadesha `sub` (`took_upadesha`),
/// and steps recorded.
pub open spec fn replaced_with_upadesha(a: Prakriya, b: Prakriya, i: int, sub: Seq<char>) -> bool {
    &&& Prakriya::rewrote(a, b)
    &&& i >= a.terms_seq().len() ==> b.terms_seq() == a.terms_seq()
    &&& 0 <= i < a.terms_seq().len() ==> {
        &&& b.terms_seq() == a.terms_seq().update(i, b.terms_seq()[i])
        &&& took_upadesha(a.terms_seq()[i], b.terms_seq()[i], sub)
    }
}

/// Replaces the term at `i` with the upadesha `sub` and records `code`, if there is one, before
/// the it-samjna rules run on it.
fn replace_and_run(p: &mut Prakriya, i: usize, sub: &str, code: Option<Rule>)
    ensures
        replaced_with_upadesha(*old(p), *final(p), i as int, sub@),
{
    let ghost p0 = *p;
    proof {
        crate::prakriya::lemma_rewrote_refl(p0);
    }
    if i < p.terms().len() {
        upadesha_no_it(p, i, sub);
        let ghost p1 = *p;
        proof {
            crate::prakriya::lemma_rewrote_refl(p1);
        }
        if let Some(c) = code {
            p.step(c);
            assert(p1.steps().subrange(0, p1.steps().len() as int) =~= p1.steps());
        }
        let ghost p2 = *p;
        let _ = crate::it_samjna::run(p, i);
        proof {
            crate::prakriya::lemma_rewrote_trans(p0, p1, p2);
            crate::prakriya::lemma_rewrote_trans(p0, p2, *p);
            assert(p2.terms_seq()[i as int].tags@ == p0.terms_seq()[i as int].tags@);
            assert(p.terms_seq() =~= p0.terms_seq().update(i as int, p.terms_seq()[i as int]));
        }
    }
}

/// Replaces the term at `i`, if there is one, with the upadesha `sub`, keeping its former
/// upadesha among its lakshanas, and runs the it-samjna rules on it. Where those rules stop
/// early (see `it_samjna_outcome`), the term is left as they left it.
pub fn upadesha(p: &mut Prakriya, i: usize, sub: &str)
    ensures
        replaced_with_upadesha(*old(p), *final(p), i as int, sub@),
{
    replace_and_run(p, i, sub, None);
}

/// As `upadesha`, but records the step `rule` before the it-samjna rules run.
pub fn upadesha_v2(rule: Rule, p: &mut Prakriya, i: usize, sub: &str)
    ensures
        replaced_with_upadesha(*old(p), *final(p), i as int, sub@),
{
    replace_and_run(p, i, sub, Some(rule));
}

/// Replaces the term at `i`, if there is one, with the upadesha `sub` by the rule `rule`,
/// recording the step before the it-samjna rules run on it.
pub fn adesha(rule: Rule, p: &mut Prakriya, i: usize, sub: &str)
    ensures
        replaced_with_upadesha(*old(p), *final(p), i as int, sub@),
{
    replace_and_run(p, i, sub, Some(rule));
}

/// Whether `t` is the agama `sub` after the it-samjna rules ran on it.
pub open spec fn is_agama_from(t: Term, sub: Seq<char>) -> bool {
    let res = it_samjna_outcome(sub, sub, set![T::Agama]);
    &&& t.u_is(sub)
    &&& t.text@ == res.0
    &&& t.tags@ == res.1
    &&& t.gana is None
    &&& t.number is None
    &&& t.lakshana@.len() == 0
}

/// Inserts the agama `u` at `i`.
pub fn insert_agama_before(p: &mut Prakriya, i: usize, u: &str)
    requires
        i <= old(p).terms_seq().len(),
    ensures
        Prakriya::same_but_terms(*old(p), *final(p)),
        final(p).terms_seq().len() == old(p).terms_seq().len() + 1,
        final(p).terms_seq() == old(p).terms_seq().insert(i as int, final(p).terms_seq()[i as int]),
        final(p).terms_seq()[i as int].u_is(u@),
        final(p).terms_seq()[i as int].text@ == u@,
        final(p).terms_seq()[i as int].tags@ == set![T::Agama],
        final(p).terms_seq()[i as int].gana is None,
        final(p).terms_seq()[i as int].number is None,
        final(p).terms_seq()[i as int].lakshana@.len() == 0,
{
    let agama = Term::make_agama(u);
    p.insert_before(i, agama);
}

/// Inserts the agama `u` right after `i`.
pub fn insert_agama_after(p: &mut Prakriya, i: usize, u: &str)
    requires
        i < old(p).terms_seq().len(),
    ensures
        Prakriya::same_but_terms(*old(p), *final(p)),
        final(p).terms_seq().len() == old(p).terms_seq().len() + 1,
        final(p).terms_seq() == old(p).terms_seq().insert(i + 1, final(p).terms_seq()[i + 1]),
        final(p).terms_seq()[i + 1].u_is(u@),
        final(p).terms_seq()[i + 1].text@ == u@,
        final(p).terms_seq()[i + 1].tags@ == set![T::Agama],
        final(p).terms_seq()[i + 1].gana is None,
        final(p).terms_seq()[i + 1].number is None,
        final(p).terms_seq()[i + 1].lakshana@.len() == 0,
{
    let agama = Term::make_agama(u);
    p.insert_after(i, agama);
}

/// Inserts the agama `sub` right after `i` by the rule `rule`, records the step, and runs the
/// it-samjna rules on the agama.
pub fn append_agama(rule: Rule, p: &mut Prakriya, i: usize, sub: &str)
    requires
        i < old(p).terms_seq().len(),
    ensures
        Prakriya::rewrote(*old(p), *final(p)),
        final(p).terms_seq().len() == old(p).terms_seq().len() + 1,
        final(p).terms_seq() == old(p).terms_seq().insert(i + 1, final(p).terms_seq()[i + 1]),
        is_agama_from(final(p).terms_seq()[i + 1], sub@),
        old(p).cfg().log_steps ==> old(p).steps().len() < final(p).steps().len()
            && final(p).steps()[old(p).steps().len() as int].rule == rule,
{
    let ghost p0 = *p;
    let n = p.terms().len();
    let agama = Term::make_agama(sub);
    p.insert_after(i, agama);
    assert(i + 1 <= n);
    let ghost p1 = *p;
    p.step(rule);
    let ghost p2 = *p;
    proof {
        crate::prakriya::lemma_rewrote_refl(p0);
        assert(p1.steps().subrange(0, p1.steps().len() as int) =~= p1.steps());
        crate::prakriya::lemma_rewrote_trans(p0, p1, p2);
    }
    let _ = crate::it_samjna::run(p, i + 1);
    proof {
        crate::prakriya::lemma_rewrote_trans(p0, p2, *p);
        assert(p.terms_seq() =~= p0.terms_seq().insert(i + 1, p.terms_seq()[i + 1]));
        if p0.cfg().log_steps {
            assert(p.steps()[p0.steps().len() as int] == p.steps().subrange(
                0,
                p2.steps().len() as int,
            )[p0.steps().len() as int]);
        }
    }
}

/// Replaces the upadesha of the term at `i` with the entry of `new_items` at the place of
/// its upadesha in `old_items`, keeping the former upadesha among its lakshanas, and runs the it-samjna
/// rules on it. Terms without an upadesha stay as they are.
pub fn upadesha_yatha(p: &mut Prakriya, i: usize, old_items: &[&str], new_items: &[&str])
    requires
        old_items@.len() == new_items@.len(),
        has_upadesha_at(*old(p), i as int) ==> exists|k: int|
            0 <= k < old_items@.len() && (#[trigger] old_items@[k])@ == old(p).terms_seq()[i as int].u->0@,
    ensures
        !has_upadesha_at(*old(p), i as int) ==> *final(p) == *old(p),
        has_upadesha_at(*old(p), i as int) ==> {
            let k = first_index_of(old_items@, old(p).terms_seq()[i as int].u->0@);
            replaced_with_upadesha(*old(p), *final(p), i as int, new_items@[k]@)
        },
{
    if i >= p.terms().len() {
        return;
    }
    let u = match &p.terms()[i].u {
        Some(u) => strings::string_from(u.as_str()),
        None => {
            return;
        },
    };
    let mut k: usize = 0;
    let mut found = false;
    while !found && k < old_items.len()
        invariant
            k <= old_items@.len(),
            forall|j: int| 0 <= j < k ==> (#[trigger] old_items@[j])@ != u@,
            found ==> k < old_items@.len() && old_items@[k as int]@ == u@,
        decreases old_items@.len() - k + (if found {
            0int
        } else {
            1int
        }),
    {
        if strings::str_eq(u.as_str(), old_items[k]) {
            found = true;
        } else {
            k = k + 1;
        }
    }
    proof {
        if k == old_items@.len() {
            let w = choose|j: int| 0 <= j < old_items@.len() && (#[trigger] old_items@[j])@ == u@;
            assert(old_items@[w]@ != u@);
        }
        lemma_first_index_of(old_items@, u@, k as int);
    }
    upadesha(p, i, new_items[k]);
}

/// The index of the first entry of `items` with the text `x`.
pub open spec fn first_index_of(items: Seq<&str>, x: Seq<char>) -> int
    decreases items.len(),
{
    if items.len() == 0 {
        0
    } else if first_index_of(items.drop_last(), x) < items.len() - 1 && items.drop_last()[
        first_index_of(items.drop_last(), x)]@ == x {
        first_index_of(items.drop_last(), x)
    } else {
        items.len() - 1
    }
}

pub(crate) proof fn lemma_first_index_of(items: Seq<&str>, x: Seq<char>, k: int)
    requires
        0 <= k < items.len(),
        items[k]@ == x,
        forall|j: int| 0 <= j < k ==> (#[trigger] items[j])@ != x,
    ensures
        first_index_of(items, x) == k,
    decreases items.len(),
{
    if k < items.len() - 1 {
        let init = items.drop_last();
        lemma_first_index_of(init, x, k);
        assert(init[k] == items[k]);
    } else {
        let init = items.drop_last();
        lemma_first_index_not(init, x);
    }
}

proof fn lemma_first_index_not(items: Seq<&str>, x: Seq<char>)
    requires
        forall|j: int| 0 <= j < items.len() ==> (#[trigger] items[j])@ != x,
    ensures
        !(first_index_of(items, x) < items.len() && items[first_index_of(items, x)]@ == x),
    decreases items.len(),
{
    if items.len() > 0 {
        let init = items.drop_last();
        lemma_first_index_not(init, x);
        assert(0 <= first_index_of(init, x) < items.len() - 1 ==> init[first_index_of(init, x)]
            == items[first_index_of(init, x)]);
    }
}

} // verus!
