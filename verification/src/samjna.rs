//! Rules that name pratyayas sarvadhatuka or ardhadhatuka (3.4.113 - 3.4.117).
use crate::constants::Tag as T;
use crate::operations::same_but_text_and_tags;
use crate::prakriya::{lemma_rewrote_refl, lemma_rewrote_trans, Prakriya, Rule};
use crate::term::{strings_have, Term};
use vstd::prelude::*;

verus! {

/// The samjna that 3.4.113 - 3.4.116 give the term `t`, and the code of the rule, if any;
/// `ashih` says whether the derivation is for the ashir-liN.
pub open spec fn samjna_for(t: Term, ashih: bool) -> Option<(T, Seq<char>)> {
    if !t.tagged(T::Pratyaya) {
        None
    } else if strings_have(t.lakshana@, "li~w"@) {
        Some((T::Ardhadhatuka, "3.4.115"@))
    } else if strings_have(t.lakshana@, "li~N"@) && ashih {
        Some((T::Ardhadhatuka, "3.4.116"@))
    } else if t.tagged(T::Tin) || t.tagged(T::Sit) {
        if !t.tagged(T::Sarvadhatuka) {
            Some((T::Sarvadhatuka, "3.4.113"@))
        } else {
            None
        }
    } else if t.tagged(T::FlagNoArdhadhatuka) {
        None
    } else if t.text@.len() > 0 && !t.tagged(T::Ardhadhatuka) {
        Some((T::Ardhadhatuka, "3.4.114"@))
    } else {
        None
    }
}

/// Whether `b` is `a` with the samjna `s` added, if any.
pub open spec fn samjna_applied(a: Term, b: Term, s: Option<(T, Seq<char>)>) -> bool {
    match s {
        Some((tag, _)) => b.tags@ == a.tags@.insert(tag) && b.text == a.text
            && same_but_text_and_tags(a, b),
        None => b == a,
    }
}

/// Adds `tag` to term `i` and records the step `code`.
fn add_samjna(p: &mut Prakriya, code: Rule, i: usize, tag: T)
    requires
        i < old(p).terms_seq().len(),
    ensures
        final(p).terms_seq().len() == old(p).terms_seq().len(),
        forall|j: int|
            0 <= j < old(p).terms_seq().len() && j != i ==> final(p).terms_seq()[j] == old(
                p,
            ).terms_seq()[j],
        final(p).terms_seq()[i as int].tags@ == old(p).terms_seq()[i as int].tags@.insert(tag),
        final(p).terms_seq()[i as int].text == old(p).terms_seq()[i as int].text,
        same_but_text_and_tags(old(p).terms_seq()[i as int], final(p).terms_seq()[i as int]),
        Prakriya::rewrote(*old(p), *final(p)),
{
    let add = |q: &mut Prakriya|
        ensures
            Prakriya::same_but_terms(*old(q), *final(q)),
            i < old(q).terms_seq().len() ==> {
                &&& final(q).terms_seq().len() == old(q).terms_seq().len()
                &&& forall|j: int|
                    0 <= j < old(q).terms_seq().len() && j != i ==> final(q).terms_seq()[j]
                        == old(q).terms_seq()[j]
                &&& final(q).terms_seq()[i as int].tags@ == old(q).terms_seq()[i as int].tags@.insert(tag)
                &&& final(q).terms_seq()[i as int].text == old(q).terms_seq()[i as int].text
                &&& same_but_text_and_tags(old(q).terms_seq()[i as int], final(q).terms_seq()[i as int])
            },
        {
            if let Some(t) = q.get_mut(i) {
                t.add_tag(tag);
            }
        };
    p.op(code, add);
    proof {
        lemma_rewrote_refl(*old(p));
    }
}

fn is_pratyaya(t: &Term) -> (b: bool)
    ensures
        b == t.tagged(T::Pratyaya),
{
    t.has_tag(T::Pratyaya)
}

/// Gives term `i` the samjna of 3.4.113 - 3.4.116, if any. Returns `None` where there is no
/// term `i`.
fn run_for_prakriya(p: &mut Prakriya, i: usize) -> (r: Option<()>)
    ensures
        r is None <==> i >= old(p).terms_seq().len(),
        r is None ==> *final(p) == *old(p),
        r is Some ==> {
            let ts = old(p).terms_seq();
            let us = final(p).terms_seq();
            &&& us.len() == ts.len()
            &&& forall|j: int| 0 <= j < ts.len() && j != i ==> us[j] == ts[j]
            &&& samjna_applied(
                ts[i as int],
                us[i as int],
                samjna_for(ts[i as int], old(p).tag_set().contains(T::Ashih)),
            )
        },
        Prakriya::rewrote(*old(p), *final(p)),
{
    proof {
        lemma_rewrote_refl(*p);
    }
    let pratyaya = p.get(i)?;
    if pratyaya.has_tag(T::Pratyaya) {
        if pratyaya.has_lakshana("li~w") {
            add_samjna(p, "3.4.115", i, T::Ardhadhatuka);
        } else if pratyaya.has_lakshana("li~N") && p.has_tag(T::Ashih) {
            add_samjna(p, "3.4.116", i, T::Ardhadhatuka);
        } else if pratyaya.has_tag_in(&[T::Tin, T::Sit]) {
            if !pratyaya.has_tag(T::Sarvadhatuka) {
                add_samjna(p, "3.4.113", i, T::Sarvadhatuka);
            }
        } else {
            // Suffixes introduced before "dhAtoH" are not called ArdhadhAtuka.
            // So they will not cause guNa and will not condition iT-Agama.
            if pratyaya.has_tag(T::FlagNoArdhadhatuka) {
                // do nothing
            } else if pratyaya.text.as_str().unicode_len() > 0 && !pratyaya.has_tag(
                T::Ardhadhatuka,
            ) {
                // Check that the text is not empty to avoid including luk, etc.
                add_samjna(p, "3.4.114", i, T::Ardhadhatuka);
            }
        }
    }
    Some(())
}

/// Gives each pratyaya the samjna sarvadhatuka or ardhadhatuka (3.4.113 - 3.4.116).
pub fn run(p: &mut Prakriya)
    ensures
        Prakriya::rewrote(*old(p), *final(p)),
        final(p).terms_seq().len() == old(p).terms_seq().len(),
        forall|j: int|
            0 <= j < old(p).terms_seq().len() ==> samjna_applied(
                old(p).terms_seq()[j],
                #[trigger] final(p).terms_seq()[j],
                samjna_for(old(p).terms_seq()[j], old(p).tag_set().contains(T::Ashih)),
            ),
{
    proof {
        lemma_rewrote_refl(*p);
    }
    let ghost ts = p.terms_seq();
    let ghost ashih = p.tag_set().contains(T::Ashih);
    let n = p.terms().len();
    let mut i: usize = 0;
    while i < n
        invariant
            i <= n,
            n == ts.len(),
            ts == old(p).terms_seq(),
            ashih == old(p).tag_set().contains(T::Ashih),
            p.terms_seq().len() == n,
            Prakriya::rewrote(*old(p), *p),
            forall|j: int|
                0 <= j < i ==> samjna_applied(
                    ts[j],
                    #[trigger] p.terms_seq()[j],
                    samjna_for(ts[j], ashih),
                ),
            forall|j: int| i <= j < n ==> #[trigger] p.terms_seq()[j] == ts[j],
        decreases n - i,
    {
        let ghost before = *p;
        run_for_prakriya(p, i);
        proof {
            lemma_rewrote_trans(*old(p), before, *p);
            assert(p.tag_set() == old(p).tag_set());
        }
        i = i + 1;
    }
}

} // verus!
