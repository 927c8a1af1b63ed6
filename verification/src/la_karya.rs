//! Adds the lakara after the dhatu (3.2.110 - 3.4.7).
use crate::arguments::La;
use crate::constants::{PrakriyaError, Tag as T};
use crate::it_samjna;
use crate::it_samjna::it_samjna_outcome;
use crate::prakriya::{lemma_rewrote_refl, lemma_rewrote_trans, Prakriya, Rule};
use crate::term::Term;
use crate::vikarana::{last_tagged, lemma_find_last};
use vstd::prelude::*;

verus! {

/// Whether `t` is a new pratyaya made from the upadesha `v` with the tags `tags`, after the
/// it-samjna rules have run on it.
pub open spec fn pratyaya_from(t: Term, v: Seq<char>, tags: Set<T>) -> bool {
    let res = it_samjna_outcome(v, v, tags);
    &&& t.u_is(v)
    &&& t.text@ == res.0
    &&& t.tags@ == res.1
    &&& t.gana is None
    &&& t.number is None
    &&& t.lakshana@.len() == 0
}

/// Whether `b` is `a` with a new pratyaya from the upadesha `v` and the tags `tags` inserted
/// after the term at `i` by the rule `rule`, the it-samjna rules run on it; `ok` says whether
/// they ran to the end.
pub open spec fn pratyaya_added(
    a: Prakriya,
    b: Prakriya,
    i: int,
    rule: Seq<char>,
    v: Seq<char>,
    tags: Set<T>,
    ok: bool,
) -> bool {
    &&& Prakriya::rewrote(a, b)
    &&& b.terms_seq() == a.terms_seq().insert(i + 1, b.terms_seq()[i + 1])
    &&& pratyaya_from(b.terms_seq()[i + 1], v, tags)
    &&& (ok <==> it_samjna_outcome(v, v, tags).2)
    &&& (a.cfg().log_steps ==> b.steps()[a.steps().len() as int].rule@ == rule)
}

/// Inserts a pratyaya with the upadesha `v` and the tag `Pratyaya` right after `i`, records the
/// step for `rule` and runs the it-samjna rules on it.
pub(crate) fn add_pratyaya(rule: Rule, p: &mut Prakriya, i: usize, v: &str) -> (r: Result<
    (),
    PrakriyaError,
>)
    requires
        i < old(p).terms_seq().len(),
    ensures
        pratyaya_added(*old(p), *final(p), i as int, rule@, v@, set![T::Pratyaya], r is Ok),
{
    let ghost p0 = *p;
    let mut t = Term::make_upadesha(v);
    t.add_tag(T::Pratyaya);
    assert(t.tags@ =~= set![T::Pratyaya]);
    p.insert_after(i, t);
    let n = p.terms().len();
    assert(i + 1 < n);
    let ghost p1 = *p;
    p.step(rule);
    let ghost p2 = *p;
    proof {
        lemma_rewrote_refl(p0);
        assert(p1.steps().subrange(0, p1.steps().len() as int) =~= p1.steps());
        lemma_rewrote_trans(p0, p1, p2);
        assert(it_samjna::has_upadesha_at(p2, i + 1));
    }
    let r = it_samjna::run(p, i + 1);
    proof {
        lemma_rewrote_trans(p0, p2, *p);
        assert(p.terms_seq() =~= p0.terms_seq().insert(i + 1, p.terms_seq()[i + 1]));
        if p0.cfg().log_steps {
            assert(p.steps()[p0.steps().len() as int] == p.steps().subrange(
                0,
                p2.steps().len() as int,
            )[p0.steps().len() as int]);
        }
    }
    r
}

/// The upadesha of the lakara `la`.
pub open spec fn la_upadesha(la: La) -> Seq<char> {
    match la {
        La::Lat => "la~w"@,
        La::Lit => "li~w"@,
        La::Lut => "lu~w"@,
        La::Lrt => "lf~w"@,
        La::Let => "le~w"@,
        La::Lot => "lo~w"@,
        La::Lan => "la~N"@,
        La::AshirLin => "li~N"@,
        La::VidhiLin => "li~N"@,
        La::Lun => "lu~N"@,
        La::Lrn => "lf~N"@,
    }
}

/// The rule that adds the lakara `la`: 3.3.123 (lat), 3.2.114 (lit), 3.3.15 (lut), 3.3.13 (lrt),
/// 3.4.7 (let), 3.3.162 (lot), 3.2.111 (lan), 3.3.173 (ashir-lin), 3.3.161 (vidhi-lin), 3.2.110
/// (lun) and 3.3.139 (lrn).
pub open spec fn la_rule(la: La) -> Seq<char> {
    match la {
        La::Lat => "3.3.123"@,
        La::Lit => "3.2.114"@,
        La::Lut => "3.3.15"@,
        La::Lrt => "3.3.13"@,
        La::Let => "3.4.7"@,
        La::Lot => "3.3.162"@,
        La::Lan => "3.2.111"@,
        La::AshirLin => "3.3.173"@,
        La::VidhiLin => "3.3.161"@,
        La::Lun => "3.2.110"@,
        La::Lrn => "3.3.139"@,
    }
}

fn la_info(la: La) -> (r: (Rule, &'static str))
    ensures
        r.0@ == la_rule(la),
        r.1@ == la_upadesha(la),
{
    match la {
        La::Lat => ("3.3.123", "la~w"),
        La::Lit => ("3.2.114", "li~w"),
        La::Lut => ("3.3.15", "lu~w"),
        La::Lrt => ("3.3.13", "lf~w"),
        La::Let => ("3.4.7", "le~w"),
        La::Lot => ("3.3.162", "lo~w"),
        La::Lan => ("3.2.111", "la~N"),
        La::AshirLin => ("3.3.173", "li~N"),
        La::VidhiLin => ("3.3.161", "li~N"),
        La::Lun => ("3.2.110", "lu~N"),
        La::Lrn => ("3.3.139", "lf~N"),
    }
}

/// Adds the lakara `la` after the last dhatu, as a pratyaya, and runs the it-samjna rules on
/// it; for ashir-lin, the derivation is also tagged `Ashih`. Where there is no dhatu, nothing
/// changes. Returns the error of the it-samjna rules, if they cannot run to the end.
pub fn run(p: &mut Prakriya, la: La) -> (r: Result<(), PrakriyaError>)
    ensures
        last_tagged(old(p).terms_seq(), T::Dhatu) == -1 ==> r is Ok && *final(p) == *old(p),
        last_tagged(old(p).terms_seq(), T::Dhatu) != -1 ==> exists|mid: Prakriya|
            #![trigger mid.tag_set()]
            {
                &&& mid.terms_seq() == old(p).terms_seq()
                &&& mid.steps() == old(p).steps()
                &&& mid.cfg() == old(p).cfg()
                &&& mid.decisions() == old(p).decisions()
                &&& mid.tag_set() == if la is AshirLin {
                    old(p).tag_set().insert(T::Ashih)
                } else {
                    old(p).tag_set()
                }
                &&& pratyaya_added(
                    mid,
                    *final(p),
                    last_tagged(old(p).terms_seq(), T::Dhatu),
                    la_rule(la),
                    la_upadesha(la),
                    set![T::Pratyaya],
                    r is Ok,
                )
            },
{
    let ghost ts = p.terms_seq();
    let found = p.find_last(T::Dhatu);
    proof {
        lemma_find_last(ts, T::Dhatu, found);
    }
    let i = match found {
        Some(i) => i,
        None => return Ok(()),
    };
    if matches!(la, La::AshirLin) {
        p.add_tag(T::Ashih);
    }
    let ghost mid = *p;
    let (rule, up) = la_info(la);
    let r = add_pratyaya(rule, p, i, up);
    proof {
        // `mid` is the state the ensures clause speaks of.
        assert(mid.terms_seq() == old(p).terms_seq());
    }
    r
}

} // verus!
