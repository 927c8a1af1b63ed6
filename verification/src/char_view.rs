//! Treats the terms of a prakriya as one string, addressed by the index of a sound.
use crate::prakriya::{compact_as_str, concat_texts, Prakriya};
use crate::operations::{same_but_text, splice};
use crate::term::Term;
use vstd::prelude::*;

verus! {

/// Finds the term, at `k` or later, that holds sound `index` of the joined text, where the
/// term at `k` starts at sound `cur`: the term's index and where it starts, or `(-1, 0)`.
pub open spec fn locate(ts: Seq<Term>, index: int, k: int, cur: int) -> (int, int)
    decreases ts.len() - k,
{
    if k >= ts.len() || k < 0 {
        (-1, 0)
    } else if cur <= index < cur + ts[k].text@.len() {
        (k, cur)
    } else {
        locate(ts, index, k + 1, cur + ts[k].text@.len())
    }
}

/// The term that holds sound `index` of the joined text, and where that term starts; `(-1, 0)`
/// where `index` is past the end.
pub open spec fn term_at(ts: Seq<Term>, index: int) -> (int, int) {
    locate(ts, index, 0, 0)
}

/// `t` with its sound at `offset` replaced by `sub`.
pub open spec fn with_sound_replaced(t: Term, offset: int, sub: Seq<char>) -> Seq<char> {
    t.text@.subrange(0, offset) + sub + t.text@.subrange(offset + 1, t.text@.len() as int)
}

proof fn lemma_concat_append(a: Seq<Term>, b: Seq<Term>)
    ensures
        concat_texts(a + b) == concat_texts(a) + concat_texts(b),
    decreases b.len(),
{
    if b.len() == 0 {
        assert(a + b =~= a);
    } else {
        lemma_concat_append(a, b.drop_last());
        assert((a + b).drop_last() =~= a + b.drop_last());
        assert((a + b).last() == b.last());
    }
}

proof fn lemma_concat_single(t: Term)
    ensures
        concat_texts(seq![t]) == t.text@,
{
    assert(seq![t].drop_last() =~= Seq::<Term>::empty());
    assert(concat_texts(Seq::<Term>::empty()) =~= Seq::<char>::empty());
    assert(Seq::<char>::empty() + t.text@ =~= t.text@);
}

proof fn lemma_locate(ts: Seq<Term>, index: int, k: int, cur: int)
    requires
        0 <= k <= ts.len(),
        cur == concat_texts(ts.subrange(0, k)).len(),
        cur <= index,
    ensures
        locate(ts, index, k, cur).0 == -1 ==> index >= concat_texts(ts).len(),
        locate(ts, index, k, cur).0 != -1 ==> {
            let (j, c) = locate(ts, index, k, cur);
            &&& k <= j < ts.len()
            &&& c == concat_texts(ts.subrange(0, j)).len()
            &&& c <= index < c + ts[j].text@.len()
        },
    decreases ts.len() - k,
{
    if k < ts.len() {
        assert(ts.subrange(0, k + 1).drop_last() =~= ts.subrange(0, k));
        if !(cur <= index < cur + ts[k].text@.len()) {
            lemma_locate(ts, index, k + 1, cur + ts[k].text@.len());
        }
    } else {
        assert(ts.subrange(0, k) =~= ts);
    }
}

/// Gets the term that holds sound `index` of the joined text of the prakriya.
pub fn get_at(p: &mut Prakriya, index: usize) -> (r: Option<&Term>)
    ensures
        *final(p) == *old(p),
        term_at(old(p).terms_seq(), index as int).0 == -1 ==> r is None,
        term_at(old(p).terms_seq(), index as int).0 != -1 ==> r == Some(
            &old(p).terms_seq()[term_at(old(p).terms_seq(), index as int).0],
        ),
{
    let ts = p.terms();
    let mut cur: usize = 0;
    let mut k: usize = 0;
    while k < ts.len()
        invariant
            k <= ts@.len(),
            ts@ == old(p).terms_seq(),
            term_at(ts@, index as int) == locate(ts@, index as int, k as int, cur as int),
        decreases ts@.len() - k,
    {
        let t = &ts[k];
        let delta = t.text.as_str().unicode_len();
        if cur <= index && index - cur < delta {
            return Some(t);
        }
        if delta > usize::MAX - cur {
            // The joined text is longer than an index can reach: no later term holds `index`.
            proof {
                lemma_locate_past(ts@, index as int, k + 1, cur + delta);
            }
            return None;
        }
        cur = cur + delta;
        k = k + 1;
    }
    None
}

proof fn lemma_locate_past(ts: Seq<Term>, index: int, k: int, cur: int)
    requires
        index < cur,
    ensures
        locate(ts, index, k, cur).0 == -1,
    decreases ts.len() - k,
{
    if 0 <= k < ts.len() {
        lemma_locate_past(ts, index, k + 1, cur + ts[k].text@.len());
    }
}

/// The texts `xs` joined into one.
pub open spec fn joined(xs: Seq<Seq<char>>) -> Seq<char>
    decreases xs.len(),
{
    if xs.len() == 0 {
        Seq::empty()
    } else {
        joined(xs.drop_last()) + xs.last()
    }
}

/// Finds the text, at `k` or later, that holds sound `index` of the joined texts `xs`, where
/// the text at `k` starts at sound `cur`: its index and where it starts, or `(-1, 0)`.
pub open spec fn locate_text(xs: Seq<Seq<char>>, index: int, k: int, cur: int) -> (int, int)
    decreases xs.len() - k,
{
    if k >= xs.len() || k < 0 {
        (-1, 0)
    } else if cur <= index < cur + xs[k].len() {
        (k, cur)
    } else {
        locate_text(xs, index, k + 1, cur + xs[k].len())
    }
}

/// The texts `xs` with sound `index` of their joined text replaced by `sub`; `xs` where the
/// joined text has no such sound.
pub open spec fn set_sound(xs: Seq<Seq<char>>, index: int, sub: Seq<char>) -> Seq<Seq<char>> {
    let (k, c) = locate_text(xs, index, 0, 0);
    if k == -1 {
        xs
    } else {
        xs.update(k, xs[k].subrange(0, index - c) + sub + xs[k].subrange(index - c + 1, xs[k].len() as int))
    }
}

pub proof fn lemma_locate_text(ts: Seq<Term>, index: int, k: int, cur: int)
    ensures
        locate(ts, index, k, cur) == locate_text(term_texts(ts), index, k, cur),
    decreases ts.len() - k,
{
    if 0 <= k < ts.len() {
        lemma_locate_text(ts, index, k + 1, cur + ts[k].text@.len());
    }
}

/// The text that holds a sound, where there is one, is one of the texts.
pub proof fn lemma_locate_text_range(xs: Seq<Seq<char>>, index: int, k: int, cur: int)
    requires
        0 <= k,
    ensures
        locate_text(xs, index, k, cur).0 != -1 ==> k <= locate_text(xs, index, k, cur).0 < xs.len(),
    decreases xs.len() - k,
{
    if k < xs.len() {
        lemma_locate_text_range(xs, index, k + 1, cur + xs[k].len());
    }
}

/// The length of joined texts changes with one text by as much as that text does.
pub proof fn lemma_joined_update_len(xs: Seq<Seq<char>>, k: int, y: Seq<char>)
    requires
        0 <= k < xs.len(),
    ensures
        joined(xs.update(k, y)).len() == joined(xs).len() - xs[k].len() + y.len(),
    decreases xs.len(),
{
    let ys = xs.update(k, y);
    if k == xs.len() - 1 {
        assert(ys.drop_last() =~= xs.drop_last());
    } else {
        assert(ys.drop_last() =~= xs.drop_last().update(k, y));
        lemma_joined_update_len(xs.drop_last(), k, y);
    }
}

/// The text that `locate_text` finds holds the sound.
pub proof fn lemma_locate_text_holds(xs: Seq<Seq<char>>, index: int, k: int, cur: int)
    requires
        0 <= k,
    ensures
        locate_text(xs, index, k, cur).0 != -1 ==> {
            let (j, c) = locate_text(xs, index, k, cur);
            &&& k <= j < xs.len()
            &&& c <= index < c + xs[j].len()
        },
    decreases xs.len() - k,
{
    if k < xs.len() {
        lemma_locate_text_holds(xs, index, k + 1, cur + xs[k].len());
    }
}

/// Dropping a sound never makes the joined text longer.
pub proof fn lemma_set_sound_drop_len(xs: Seq<Seq<char>>, index: int)
    ensures
        joined(set_sound(xs, index, Seq::empty())).len() <= joined(xs).len(),
{
    lemma_locate_text_holds(xs, index, 0, 0);
    let (k, c) = locate_text(xs, index, 0, 0);
    if k != -1 {
        let y = xs[k].subrange(0, index - c) + Seq::<char>::empty() + xs[k].subrange(
            index - c + 1,
            xs[k].len() as int,
        );
        lemma_joined_update_len(xs, k, y);
    }
}

/// Whether a rule on sounds never makes the joined text longer.
pub open spec fn never_grows(rewrite: spec_fn(Seq<Seq<char>>, int) -> Option<Seq<Seq<char>>>) -> bool {
    forall|xs: Seq<Seq<char>>, i: int|
        #[trigger] rewrite(xs, i) is Some ==> joined(rewrite(xs, i)->0).len() <= joined(xs).len()
}

proof fn lemma_first_change_len(
    accepts: spec_fn(Seq<Seq<char>>, int) -> bool,
    rewrite: spec_fn(Seq<Seq<char>>, int) -> Option<Seq<Seq<char>>>,
    xs: Seq<Seq<char>>,
    i: int,
)
    requires
        never_grows(rewrite),
    ensures
        first_change(accepts, rewrite, xs, i) is Some ==> joined(
            first_change(accepts, rewrite, xs, i)->0,
        ).len() <= joined(xs).len(),
    decreases joined(xs).len() - i,
{
    if 0 <= i < joined(xs).len() && !(accepts(xs, i) && rewrite(xs, i) is Some) {
        lemma_first_change_len(accepts, rewrite, xs, i + 1);
    }
}

/// A rule on sounds that never makes the joined text longer does not make it longer when it
/// runs until it settles.
pub proof fn lemma_settle_len(
    accepts: spec_fn(Seq<Seq<char>>, int) -> bool,
    rewrite: spec_fn(Seq<Seq<char>>, int) -> Option<Seq<Seq<char>>>,
    xs: Seq<Seq<char>>,
    fuel: nat,
)
    requires
        never_grows(rewrite),
    ensures
        settle(accepts, rewrite, xs, fuel) is Some ==> joined(settle(accepts, rewrite, xs, fuel)->0).len()
            <= joined(xs).len(),
    decreases fuel,
{
    lemma_first_change_len(accepts, rewrite, xs, 0);
    match first_change(accepts, rewrite, xs, 0) {
        None => {},
        Some(ys) => {
            if fuel > 0 {
                lemma_settle_len(accepts, rewrite, ys, (fuel - 1) as nat);
            }
        },
    }
}

/// Whether a rule on sounds keeps the number of texts.
pub open spec fn keeps_count(rewrite: spec_fn(Seq<Seq<char>>, int) -> Option<Seq<Seq<char>>>) -> bool {
    forall|xs: Seq<Seq<char>>, i: int|
        #[trigger] rewrite(xs, i) is Some ==> (rewrite(xs, i)->0).len() == xs.len()
}

/// Setting a sound keeps the number of texts.
pub proof fn lemma_set_sound_count(xs: Seq<Seq<char>>, index: int, sub: Seq<char>)
    ensures
        set_sound(xs, index, sub).len() == xs.len(),
{
    lemma_locate_text_holds(xs, index, 0, 0);
}

proof fn lemma_first_change_count(
    accepts: spec_fn(Seq<Seq<char>>, int) -> bool,
    rewrite: spec_fn(Seq<Seq<char>>, int) -> Option<Seq<Seq<char>>>,
    xs: Seq<Seq<char>>,
    i: int,
)
    requires
        keeps_count(rewrite),
    ensures
        first_change(accepts, rewrite, xs, i) is Some ==> (first_change(accepts, rewrite, xs, i)->0).len()
            == xs.len(),
    decreases joined(xs).len() - i,
{
    if 0 <= i < joined(xs).len() && !(accepts(xs, i) && rewrite(xs, i) is Some) {
        lemma_first_change_count(accepts, rewrite, xs, i + 1);
    }
}

/// A rule on sounds that keeps the number of texts keeps it when it runs until it settles.
pub proof fn lemma_settle_count(
    accepts: spec_fn(Seq<Seq<char>>, int) -> bool,
    rewrite: spec_fn(Seq<Seq<char>>, int) -> Option<Seq<Seq<char>>>,
    xs: Seq<Seq<char>>,
    fuel: nat,
)
    requires
        keeps_count(rewrite),
    ensures
        settle(accepts, rewrite, xs, fuel) is Some ==> (settle(accepts, rewrite, xs, fuel)->0).len()
            == xs.len(),
    decreases fuel,
{
    lemma_first_change_count(accepts, rewrite, xs, 0);
    match first_change(accepts, rewrite, xs, 0) {
        None => {},
        Some(ys) => {
            if fuel > 0 {
                lemma_settle_count(accepts, rewrite, ys, (fuel - 1) as nat);
            }
        },
    }
}

proof fn lemma_joined_append(a: Seq<Seq<char>>, b: Seq<Seq<char>>)
    ensures
        joined(a + b) == joined(a) + joined(b),
    decreases b.len(),
{
    if b.len() == 0 {
        assert(a + b =~= a);
    } else {
        lemma_joined_append(a, b.drop_last());
        assert((a + b).drop_last() =~= a + b.drop_last());
    }
}

proof fn lemma_locate_text_joined(xs: Seq<Seq<char>>, index: int, k: int, cur: int)
    requires
        0 <= k <= xs.len(),
        cur == joined(xs.subrange(0, k)).len(),
        cur <= index,
    ensures
        locate_text(xs, index, k, cur).0 == -1 ==> index >= joined(xs).len(),
        locate_text(xs, index, k, cur).0 != -1 ==> {
            let (j, c) = locate_text(xs, index, k, cur);
            &&& k <= j < xs.len()
            &&& c == joined(xs.subrange(0, j)).len()
            &&& c <= index < c + xs[j].len()
        },
    decreases xs.len() - k,
{
    if k < xs.len() {
        assert(xs.subrange(0, k + 1).drop_last() =~= xs.subrange(0, k));
        if !(cur <= index < cur + xs[k].len()) {
            lemma_locate_text_joined(xs, index, k + 1, cur + xs[k].len());
        }
    } else {
        assert(xs.subrange(0, k) =~= xs);
    }
}

proof fn lemma_joined_single(x: Seq<char>)
    ensures
        joined(seq![x]) == x,
{
    assert(seq![x].drop_last() =~= Seq::<Seq<char>>::empty());
    assert(joined(Seq::<Seq<char>>::empty()) =~= Seq::<char>::empty());
    assert(Seq::<char>::empty() + x =~= x);
}

/// Setting sound `index` of the joined texts replaces just that sound of the joined text.
pub proof fn lemma_set_sound_joined(xs: Seq<Seq<char>>, index: int, sub: Seq<char>)
    requires
        0 <= index < joined(xs).len(),
    ensures
        joined(set_sound(xs, index, sub)) == joined(xs).subrange(0, index) + sub + joined(xs).subrange(
            index + 1,
            joined(xs).len() as int,
        ),
{
    assert(xs.subrange(0, 0) =~= Seq::<Seq<char>>::empty());
    lemma_locate_text_joined(xs, index, 0, 0);
    let (k, c) = locate_text(xs, index, 0, 0);
    let pre = xs.subrange(0, k);
    let post = xs.subrange(k + 1, xs.len() as int);
    let y = xs[k].subrange(0, index - c) + sub + xs[k].subrange(index - c + 1, xs[k].len() as int);
    assert(xs =~= pre + seq![xs[k]] + post);
    assert(set_sound(xs, index, sub) =~= pre + seq![y] + post);
    lemma_joined_append(pre + seq![xs[k]], post);
    lemma_joined_append(pre, seq![xs[k]]);
    lemma_joined_append(pre + seq![y], post);
    lemma_joined_append(pre, seq![y]);
    lemma_joined_single(xs[k]);
    lemma_joined_single(y);
    let whole = joined(xs);
    assert(joined(set_sound(xs, index, sub)) =~= whole.subrange(0, index) + sub + whole.subrange(
        index + 1,
        whole.len() as int,
    ));
}

proof fn lemma_first_change_keeps(
    accepts: spec_fn(Seq<Seq<char>>, int) -> bool,
    rewrite: spec_fn(Seq<Seq<char>>, int) -> Option<Seq<Seq<char>>>,
    inv: spec_fn(Seq<Seq<char>>) -> bool,
    xs: Seq<Seq<char>>,
    i: int,
)
    requires
        inv(xs),
        forall|ys: Seq<Seq<char>>, j: int|
            inv(ys) && 0 <= j < joined(ys).len() && accepts(ys, j) && #[trigger] rewrite(ys, j) is Some
                ==> inv(rewrite(ys, j)->0),
    ensures
        first_change(accepts, rewrite, xs, i) is Some ==> inv(first_change(accepts, rewrite, xs, i)->0),
    decreases joined(xs).len() - i,
{
    if 0 <= i < joined(xs).len() && !(accepts(xs, i) && rewrite(xs, i) is Some) {
        lemma_first_change_keeps(accepts, rewrite, inv, xs, i + 1);
    }
}

/// A property of the texts that each change of a rule on sounds keeps holds of the texts that the
/// rule settles on.
pub proof fn lemma_settle_keeps(
    accepts: spec_fn(Seq<Seq<char>>, int) -> bool,
    rewrite: spec_fn(Seq<Seq<char>>, int) -> Option<Seq<Seq<char>>>,
    inv: spec_fn(Seq<Seq<char>>) -> bool,
    xs: Seq<Seq<char>>,
    fuel: nat,
)
    requires
        inv(xs),
        forall|ys: Seq<Seq<char>>, j: int|
            inv(ys) && 0 <= j < joined(ys).len() && accepts(ys, j) && #[trigger] rewrite(ys, j) is Some
                ==> inv(rewrite(ys, j)->0),
    ensures
        settle(accepts, rewrite, xs, fuel) is Some ==> inv(settle(accepts, rewrite, xs, fuel)->0),
    decreases fuel,
{
    lemma_first_change_keeps(accepts, rewrite, inv, xs, 0);
    match first_change(accepts, rewrite, xs, 0) {
        None => {},
        Some(ys) => {
            if fuel > 0 {
                lemma_settle_keeps(accepts, rewrite, inv, ys, (fuel - 1) as nat);
            }
        },
    }
}

proof fn lemma_no_change_from(
    accepts: spec_fn(Seq<Seq<char>>, int) -> bool,
    rewrite: spec_fn(Seq<Seq<char>>, int) -> Option<Seq<Seq<char>>>,
    xs: Seq<Seq<char>>,
    i: int,
    j: int,
)
    requires
        0 <= i <= j < joined(xs).len(),
        first_change(accepts, rewrite, xs, i) is None,
    ensures
        !(accepts(xs, j) && rewrite(xs, j) is Some),
    decreases j - i,
{
    if i < j {
        lemma_no_change_from(accepts, rewrite, xs, i + 1, j);
    }
}

/// Where a rule on sounds settles, it finds nothing more to change in the texts it settles on.
pub proof fn lemma_settled(
    accepts: spec_fn(Seq<Seq<char>>, int) -> bool,
    rewrite: spec_fn(Seq<Seq<char>>, int) -> Option<Seq<Seq<char>>>,
    xs: Seq<Seq<char>>,
    fuel: nat,
)
    ensures
        settle(accepts, rewrite, xs, fuel) is Some ==> forall|j: int|
            0 <= j < joined(settle(accepts, rewrite, xs, fuel)->0).len() ==> !(accepts(
                settle(accepts, rewrite, xs, fuel)->0,
                j,
            ) && #[trigger] rewrite(settle(accepts, rewrite, xs, fuel)->0, j) is Some),
    decreases fuel,
{
    match first_change(accepts, rewrite, xs, 0) {
        None => {
            assert forall|j: int| 0 <= j < joined(xs).len() implies !(accepts(xs, j) && #[trigger] rewrite(
                xs,
                j,
            ) is Some) by {
                lemma_no_change_from(accepts, rewrite, xs, 0, j);
            }
        },
        Some(ys) => {
            if fuel > 0 {
                lemma_settled(accepts, rewrite, ys, (fuel - 1) as nat);
            }
        },
    }
}

/// The joined text of terms is the joined text of their texts.
pub proof fn lemma_joined(ts: Seq<Term>)
    ensures
        concat_texts(ts) == joined(term_texts(ts)),
    decreases ts.len(),
{
    if ts.len() > 0 {
        assert(term_texts(ts.drop_last()) =~= term_texts(ts).drop_last());
        lemma_joined(ts.drop_last());
    }
}

/// Replaces sound `index` of the joined text of the prakriya with `substitute`.
pub fn set_at(p: &mut Prakriya, index: usize, substitute: &str)
    ensures
        Prakriya::same_but_terms(*old(p), *final(p)),
        term_at(old(p).terms_seq(), index as int).0 == -1 ==> final(p).terms_seq() == old(
            p,
        ).terms_seq(),
        term_at(old(p).terms_seq(), index as int).0 != -1 ==> {
            let (k, c) = term_at(old(p).terms_seq(), index as int);
            &&& final(p).terms_seq().len() == old(p).terms_seq().len()
            &&& forall|j: int|
                0 <= j < old(p).terms_seq().len() && j != k ==> final(p).terms_seq()[j] == old(
                    p,
                ).terms_seq()[j]
            &&& final(p).terms_seq()[k].text@ == with_sound_replaced(
                old(p).terms_seq()[k],
                index - c,
                substitute@,
            )
            &&& crate::operations::same_but_text(old(p).terms_seq()[k], final(p).terms_seq()[k])
        },
        same_shape(*old(p), *final(p)),
        term_texts(final(p).terms_seq()) == set_sound(
            term_texts(old(p).terms_seq()),
            index as int,
            substitute@,
        ),
{
    proof {
        lemma_locate_text(old(p).terms_seq(), index as int, 0, 0);
    }
    let ghost ts0 = p.terms_seq();
    let mut cur: usize = 0;
    let mut k: usize = 0;
    let n = p.terms().len();
    while k < n
        invariant
            k <= n,
            n == ts0.len(),
            *p == *old(p),
            ts0 == old(p).terms_seq(),
            term_at(ts0, index as int) == locate(ts0, index as int, k as int, cur as int),
            term_at(ts0, index as int) == locate_text(term_texts(ts0), index as int, 0, 0),
        decreases n - k,
    {
        let delta = p.terms()[k].text.as_str().unicode_len();
        if cur <= index && index - cur < delta {
            let offset = index - cur;
            let terms = p.terms_mut();
            let t = &mut terms[k];
            t.text = splice(t.text.as_str(), offset, offset + 1, substitute);
            assert(term_texts(p.terms_seq()) =~= set_sound(term_texts(ts0), index as int, substitute@));
            return;
        }
        if delta > usize::MAX - cur {
            proof {
                lemma_locate_past(ts0, index as int, k + 1, cur + delta);
                assert(term_texts(p.terms_seq()) =~= set_sound(term_texts(ts0), index as int, substitute@));
            }
            return;
        }
        cur = cur + delta;
        k = k + 1;
    }
}

/// Setting sound `index` of the joined text replaces exactly that sound of the joined text
/// with the substitute, where `index` is within the text.
pub proof fn lemma_set_at_joined_text(before: Seq<Term>, after: Seq<Term>, index: int, sub: Seq<
    char,
>)
    requires
        0 <= index < concat_texts(before).len(),
        after.len() == before.len(),
        forall|j: int| 0 <= j < before.len() && j != term_at(before, index).0 ==> after[j] == before[j],
        after[term_at(before, index).0].text@ == with_sound_replaced(
            before[term_at(before, index).0],
            index - term_at(before, index).1,
            sub,
        ),
    ensures
        concat_texts(after) == concat_texts(before).subrange(0, index) + sub + concat_texts(
            before,
        ).subrange(index + 1, concat_texts(before).len() as int),
{
    assert(before.subrange(0, 0) =~= Seq::<Term>::empty());
    lemma_locate(before, index, 0, 0);
    let (k, c) = term_at(before, index);
    let pre = before.subrange(0, k);
    let post = before.subrange(k + 1, before.len() as int);
    assert(before =~= pre + seq![before[k]] + post);
    assert(after =~= pre + seq![after[k]] + post) by {
        assert forall|j: int| 0 <= j < after.len() implies after[j] == (pre + seq![after[k]] + post)[j] by {
            if j < k {
                assert(after[j] == before[j]);
            } else if j > k {
                assert(after[j] == before[j]);
            }
        }
    }
    lemma_concat_append(pre + seq![before[k]], post);
    lemma_concat_append(pre, seq![before[k]]);
    lemma_concat_append(pre + seq![after[k]], post);
    lemma_concat_append(pre, seq![after[k]]);
    lemma_concat_single(before[k]);
    lemma_concat_single(after[k]);
    let whole = concat_texts(before);
    assert(concat_texts(after) =~= whole.subrange(0, index) + sub + whole.subrange(
        index + 1,
        whole.len() as int,
    ));
}

/// The texts of the terms `ts`.
pub open spec fn term_texts(ts: Seq<Term>) -> Seq<Seq<char>> {
    ts.map_values(|t: Term| t.text@)
}

/// Whether `b` has the terms of `a`, in the same number, with at most their texts changed.
pub open spec fn same_shape(a: Prakriya, b: Prakriya) -> bool {
    &&& a.terms_seq().len() == b.terms_seq().len()
    &&& forall|j: int|
        0 <= j < a.terms_seq().len() ==> same_but_text(
            #[trigger] a.terms_seq()[j],
            b.terms_seq()[j],
        )
}

/// Keeping the shape twice keeps it.
pub proof fn lemma_same_shape_trans(a: Prakriya, b: Prakriya, c: Prakriya)
    requires
        same_shape(a, b),
        same_shape(b, c),
    ensures
        same_shape(a, c),
{
    assert forall|j: int| 0 <= j < a.terms_seq().len() implies same_but_text(
        #[trigger] a.terms_seq()[j],
        c.terms_seq()[j],
    ) by {
        assert(same_but_text(a.terms_seq()[j], b.terms_seq()[j]));
        assert(same_but_text(b.terms_seq()[j], c.terms_seq()[j]));
    }
}

/// Whether `b` has the terms, the tags and the settings of `a`: at most its log of steps and
/// decisions differs.
pub open spec fn same_but_log(a: Prakriya, b: Prakriya) -> bool {
    a.terms_seq() == b.terms_seq() && a.tag_set() == b.tag_set() && a.cfg() == b.cfg()
}

/// Whether, on a derivation like `x` but for its log, a call of `filter` at index `i` of `text`
/// can reject the index, or accept it while a call of `operator` there reports no change.
pub open spec fn quiet_at<F, O>(filter: F, operator: O, text: &str, i: usize, x: Prakriya) -> bool where
    F: Fn(&mut Prakriya, &str, usize) -> bool,
    O: Fn(&mut Prakriya, &str, usize) -> bool,
 {
    exists|q: &mut Prakriya, b: bool|
        same_but_log(x, *q) && #[trigger] call_ensures(filter, (q, text, i), b) && (b ==> exists|
            q2: &mut Prakriya,
        | same_but_log(x, *q2) && #[trigger] call_ensures(operator, (q2, text, i), false))
}

/// Whether the rule of `filter` and `operator` finds nothing to change on `x`: on a derivation
/// `start` like `x` but for its log, at every index of the text of `start`, the rule can be
/// quiet.
pub open spec fn quiet_on<F, O>(filter: F, operator: O, x: Prakriya) -> bool where
    F: Fn(&mut Prakriya, &str, usize) -> bool,
    O: Fn(&mut Prakriya, &str, usize) -> bool,
 {
    exists|start: Prakriya, text: &str|
        #![trigger same_but_log(start, x), text@]
        same_but_log(start, x) && text@ == concat_texts(start.terms_seq()) && text@.len()
            <= usize::MAX && forall|i: usize|
            (i as int) < text@.len() ==> #[trigger] quiet_at(filter, operator, text, i, start)
}

/// Whether, on every derivation like `x` but for its log, a call of `filter` at index `i` of
/// `text` rejects the index, or accepts it while every call of `operator` there reports no
/// change.
pub open spec fn inert_at<F, O>(filter: F, operator: O, text: &str, i: usize, x: Prakriya) -> bool where
    F: Fn(&mut Prakriya, &str, usize) -> bool,
    O: Fn(&mut Prakriya, &str, usize) -> bool,
 {
    forall|q: &mut Prakriya, b: bool|
        same_but_log(x, *q) && #[trigger] call_ensures(filter, (q, text, i), b) && b ==> forall|
            q2: &mut Prakriya,
            c: bool,
        | same_but_log(x, *q2) && #[trigger] call_ensures(operator, (q2, text, i), c) ==> !c
}

/// Whether the rule of `filter` and `operator` surely has nothing to do on `x`: at every index
/// of its text, it is inert (`inert_at`).
pub open spec fn inert_on<F, O>(filter: F, operator: O, x: Prakriya) -> bool where
    F: Fn(&mut Prakriya, &str, usize) -> bool,
    O: Fn(&mut Prakriya, &str, usize) -> bool,
 {
    forall|text: &str, i: usize|
        text@ == concat_texts(x.terms_seq()) && (i as int) < text@.len() ==> #[trigger] inert_at(
            filter,
            operator,
            text,
            i,
            x,
        )
}

/// One pass of a rule on sounds over the texts `xs`, from sound `i` of their joined text on:
/// at the first sound that `accepts` takes and where `rewrite` reports a change, the texts
/// that `rewrite` gives; `None` where the pass reports no change.
pub open spec fn first_change(
    accepts: spec_fn(Seq<Seq<char>>, int) -> bool,
    rewrite: spec_fn(Seq<Seq<char>>, int) -> Option<Seq<Seq<char>>>,
    xs: Seq<Seq<char>>,
    i: int,
) -> Option<Seq<Seq<char>>>
    decreases joined(xs).len() - i,
{
    if i < 0 || i >= joined(xs).len() {
        None
    } else if accepts(xs, i) && rewrite(xs, i) is Some {
        rewrite(xs, i)
    } else {
        first_change(accepts, rewrite, xs, i + 1)
    }
}

/// A rule on sounds applied to the texts `xs` pass after pass until a pass reports no change:
/// the texts then, where that happens after at most `fuel` changes; `None` otherwise.
pub open spec fn settle(
    accepts: spec_fn(Seq<Seq<char>>, int) -> bool,
    rewrite: spec_fn(Seq<Seq<char>>, int) -> Option<Seq<Seq<char>>>,
    xs: Seq<Seq<char>>,
    fuel: nat,
) -> Option<Seq<Seq<char>>>
    decreases fuel,
{
    match first_change(accepts, rewrite, xs, 0) {
        None => Some(xs),
        Some(ys) => if fuel == 0 {
            None
        } else {
            settle(accepts, rewrite, ys, (fuel - 1) as nat)
        },
    }
}

/// Applies a sound-based rule to the given prakriya: passes over the text, calls `filter` at
/// each index and `operator` where the filter accepts, and starts a new pass over the new
/// text once the operator reports a change. Returns whether a pass reported no change within
/// eleven passes; where the rule keeps changing the text, it stops there and returns false.
///
/// Where the filter changes at most the log of the derivation, and so does the operator when it
/// reports no change, a pass that reports no change keeps the terms as it found them, so the
/// rule then finds nothing to change on the result. Where the rule surely has nothing to do
/// (`inert_on`), the first pass reports no change: the result is true and only the log changes.
pub fn char_rule(
    p: &mut Prakriya,
    filter: impl Fn(&mut Prakriya, &str, usize) -> bool,
    operator: impl Fn(&mut Prakriya, &str, usize) -> bool,
) -> (done: bool)
    requires
        forall|q: &mut Prakriya, text: &str, i: usize| call_requires(filter, (q, text, i)),
        forall|q: &mut Prakriya, text: &str, i: usize| call_requires(operator, (q, text, i)),
    ensures
        done ==> ((forall|q: &mut Prakriya, t: &str, i: usize, b: bool|
            #[trigger] call_ensures(filter, (q, t, i), b) ==> same_but_log(*q, *final(q))) && (
        forall|q: &mut Prakriya, t: &str, i: usize|
            #[trigger] call_ensures(operator, (q, t, i), false) ==> same_but_log(*q, *final(q)))
            ==> quiet_on(filter, operator, *final(p))),
        ((forall|q: &mut Prakriya, t: &str, i: usize, b: bool|
            #[trigger] call_ensures(filter, (q, t, i), b) ==> same_shape(*q, *final(q))) && (
        forall|q: &mut Prakriya, t: &str, i: usize, b: bool|
            #[trigger] call_ensures(operator, (q, t, i), b) ==> same_shape(*q, *final(q))))
            ==> same_shape(*old(p), *final(p)),
        ((forall|q: &mut Prakriya, t: &str, i: usize, b: bool|
            #[trigger] call_ensures(filter, (q, t, i), b) ==> same_but_log(*q, *final(q))) && (
        forall|q: &mut Prakriya, t: &str, i: usize|
            #[trigger] call_ensures(operator, (q, t, i), false) ==> same_but_log(*q, *final(q)))
            && inert_on(filter, operator, *old(p))) ==> done && same_but_log(*old(p), *final(p)),
        forall|accepts: spec_fn(Seq<Seq<char>>, int) -> bool, rewrite: spec_fn(Seq<Seq<char>>, int) -> Option<Seq<Seq<char>>>|
            ((forall|q: &mut Prakriya, t: &str, i: usize, b: bool|
                #[trigger] call_ensures(filter, (q, t, i), b) && same_shape(*old(p), *q) && q.cfg() == old(p).cfg() && t@
                    == concat_texts(q.terms_seq()) && (i as int) < t@.len() ==> same_but_log(
                    *q,
                    *final(q),
                ) && b == accepts(term_texts(q.terms_seq()), i as int)) && (forall|
                q: &mut Prakriya,
                t: &str,
                i: usize,
                c: bool,
            |
                #[trigger] call_ensures(operator, (q, t, i), c) && same_shape(*old(p), *q) && q.cfg() == old(p).cfg() && t@
                    == concat_texts(q.terms_seq()) && (i as int) < t@.len() ==> (c == rewrite(
                    term_texts(q.terms_seq()),
                    i as int,
                ) is Some) && (c ==> same_shape(*q, *final(q)) && final(q).cfg() == q.cfg()
                    && final(q).tag_set() == q.tag_set() && term_texts(final(q).terms_seq())
                    == rewrite(term_texts(q.terms_seq()), i as int)->0) && (!c ==> same_but_log(
                    *q,
                    *final(q),
                )))) ==> (done <==> #[trigger] settle(
                accepts,
                rewrite,
                term_texts(old(p).terms_seq()),
                10,
            ) is Some) && (done ==> same_shape(*old(p), *final(p)) && final(p).cfg() == old(p).cfg()
                && final(p).tag_set() == old(p).tag_set() && term_texts(final(p).terms_seq())
                == settle(accepts, rewrite, term_texts(old(p).terms_seq()), 10)->0),
        ((forall|q: &mut Prakriya, t: &str, i: usize, b: bool|
                #[trigger] call_ensures(filter, (q, t, i), b) ==> final(q).decisions() == q.decisions())
                && (forall|q: &mut Prakriya, t: &str, i: usize, b: bool|
                #[trigger] call_ensures(operator, (q, t, i), b) ==> final(q).decisions()
                    == q.decisions())) ==> final(p).decisions() == old(p).decisions(),
{
    let mut counter: usize = 0;
    loop
        invariant
            counter <= 10,
            ((forall|q: &mut Prakriya, t: &str, i: usize, b: bool|
                #[trigger] call_ensures(filter, (q, t, i), b) ==> final(q).decisions() == q.decisions())
                && (forall|q: &mut Prakriya, t: &str, i: usize, b: bool|
                #[trigger] call_ensures(operator, (q, t, i), b) ==> final(q).decisions()
                    == q.decisions())) ==> p.decisions() == old(p).decisions(),
            forall|accepts: spec_fn(Seq<Seq<char>>, int) -> bool, rewrite: spec_fn(Seq<Seq<char>>, int) -> Option<Seq<Seq<char>>>|
                ((forall|q: &mut Prakriya, t: &str, i: usize, b: bool|
                #[trigger] call_ensures(filter, (q, t, i), b) && same_shape(*old(p), *q) && q.cfg() == old(p).cfg() && t@
                    == concat_texts(q.terms_seq()) && (i as int) < t@.len() ==> same_but_log(
                    *q,
                    *final(q),
                ) && b == accepts(term_texts(q.terms_seq()), i as int)) && (forall|
                q: &mut Prakriya,
                t: &str,
                i: usize,
                c: bool,
            |
                #[trigger] call_ensures(operator, (q, t, i), c) && same_shape(*old(p), *q) && q.cfg() == old(p).cfg() && t@
                    == concat_texts(q.terms_seq()) && (i as int) < t@.len() ==> (c == rewrite(
                    term_texts(q.terms_seq()),
                    i as int,
                ) is Some) && (c ==> same_shape(*q, *final(q)) && final(q).cfg() == q.cfg()
                    && final(q).tag_set() == q.tag_set() && term_texts(final(q).terms_seq())
                    == rewrite(term_texts(q.terms_seq()), i as int)->0) && (!c ==> same_but_log(
                    *q,
                    *final(q),
                )))) ==> same_shape(*old(p), *p) && p.cfg() == old(p).cfg() && p.tag_set()
                    == old(p).tag_set() && #[trigger] settle(
                    accepts,
                    rewrite,
                    term_texts(old(p).terms_seq()),
                    10,
                ) == settle(accepts, rewrite, term_texts(p.terms_seq()), (10 - counter) as nat),
            ((forall|q: &mut Prakriya, t: &str, i: usize, b: bool|
                #[trigger] call_ensures(filter, (q, t, i), b) ==> same_but_log(*q, *final(q))) && (
            forall|q: &mut Prakriya, t: &str, i: usize|
                #[trigger] call_ensures(operator, (q, t, i), false) ==> same_but_log(*q, *final(q)))
                && inert_on(filter, operator, *old(p))) ==> counter == 0 && same_but_log(
                *old(p),
                *p,
            ),
            ((forall|q: &mut Prakriya, t: &str, i: usize, b: bool|
                #[trigger] call_ensures(filter, (q, t, i), b) ==> same_shape(*q, *final(q))) && (
            forall|q: &mut Prakriya, t: &str, i: usize, b: bool|
                #[trigger] call_ensures(operator, (q, t, i), b) ==> same_shape(*q, *final(q))))
                ==> same_shape(*old(p), *p),
            forall|q: &mut Prakriya, text: &str, i: usize| call_requires(filter, (q, text, i)),
            forall|q: &mut Prakriya, text: &str, i: usize| call_requires(operator, (q, text, i)),
        decreases 10 - counter,
    {
        let text = p.text();
        let text = compact_as_str(&text);
        let ghost start = *p;
        proof {
            lemma_joined(start.terms_seq());
        }
        let n = text.unicode_len();
        let mut changed = false;
        let mut i: usize = 0;
        while i < n && !changed
            invariant
                i <= n,
                n == text@.len(),
                ((forall|q: &mut Prakriya, t: &str, i: usize, b: bool|
                #[trigger] call_ensures(filter, (q, t, i), b) ==> final(q).decisions() == q.decisions())
                && (forall|q: &mut Prakriya, t: &str, i: usize, b: bool|
                #[trigger] call_ensures(operator, (q, t, i), b) ==> final(q).decisions()
                    == q.decisions())) ==> p.decisions() == old(p).decisions(),
                ((forall|q: &mut Prakriya, t: &str, i: usize, b: bool|
                    #[trigger] call_ensures(filter, (q, t, i), b) ==> same_shape(*q, *final(q)))
                    && (forall|q: &mut Prakriya, t: &str, i: usize, b: bool|
                    #[trigger] call_ensures(operator, (q, t, i), b) ==> same_shape(
                        *q,
                        *final(q),
                    ))) ==> same_shape(*old(p), *p),
                text@ == concat_texts(start.terms_seq()),
                concat_texts(start.terms_seq()) == joined(term_texts(start.terms_seq())),
                ((forall|q: &mut Prakriya, t: &str, i: usize, b: bool|
                    #[trigger] call_ensures(filter, (q, t, i), b) ==> same_but_log(
                        *q,
                        *final(q),
                    )) && (forall|q: &mut Prakriya, t: &str, i: usize|
                    #[trigger] call_ensures(operator, (q, t, i), false) ==> same_but_log(
                        *q,
                        *final(q),
                    )) && inert_on(filter, operator, *old(p))) ==> same_but_log(*old(p), start)
                    && !changed && same_but_log(*old(p), *p),
                ((forall|q: &mut Prakriya, t: &str, i: usize, b: bool|
                    #[trigger] call_ensures(filter, (q, t, i), b) ==> same_but_log(
                        *q,
                        *final(q),
                    )) && (forall|q: &mut Prakriya, t: &str, i: usize|
                    #[trigger] call_ensures(operator, (q, t, i), false) ==> same_but_log(
                        *q,
                        *final(q),
                    ))) ==> (!changed ==> (same_but_log(start, *p) && forall|j: usize|
                    j < i ==> #[trigger] quiet_at(filter, operator, text, j, start))),
                forall|q: &mut Prakriya, text: &str, i: usize| call_requires(filter, (q, text, i)),
                forall|q: &mut Prakriya, text: &str, i: usize|
                    call_requires(operator, (q, text, i)),
                forall|accepts: spec_fn(Seq<Seq<char>>, int) -> bool, rewrite: spec_fn(Seq<Seq<char>>, int) -> Option<Seq<Seq<char>>>|
                    ((forall|q: &mut Prakriya, t: &str, i: usize, b: bool|
                #[trigger] call_ensures(filter, (q, t, i), b) && same_shape(*old(p), *q) && q.cfg() == old(p).cfg() && t@
                    == concat_texts(q.terms_seq()) && (i as int) < t@.len() ==> same_but_log(
                    *q,
                    *final(q),
                ) && b == accepts(term_texts(q.terms_seq()), i as int)) && (forall|
                q: &mut Prakriya,
                t: &str,
                i: usize,
                c: bool,
            |
                #[trigger] call_ensures(operator, (q, t, i), c) && same_shape(*old(p), *q) && q.cfg() == old(p).cfg() && t@
                    == concat_texts(q.terms_seq()) && (i as int) < t@.len() ==> (c == rewrite(
                    term_texts(q.terms_seq()),
                    i as int,
                ) is Some) && (c ==> same_shape(*q, *final(q)) && final(q).cfg() == q.cfg()
                    && final(q).tag_set() == q.tag_set() && term_texts(final(q).terms_seq())
                    == rewrite(term_texts(q.terms_seq()), i as int)->0) && (!c ==> same_but_log(
                    *q,
                    *final(q),
                )))) ==> same_shape(*old(p), start) && start.cfg() == old(p).cfg()
                        && start.tag_set() == old(p).tag_set() && #[trigger] settle(
                        accepts,
                        rewrite,
                        term_texts(old(p).terms_seq()),
                        10,
                    ) == settle(accepts, rewrite, term_texts(start.terms_seq()), (10 - counter) as nat)
                        && (!changed ==> same_but_log(start, *p)
                        && first_change(accepts, rewrite, term_texts(start.terms_seq()), 0)
                        == first_change(accepts, rewrite, term_texts(start.terms_seq()), i as int))
                        && (changed ==> first_change(accepts, rewrite, term_texts(start.terms_seq()), 0)
                        == Some(term_texts(p.terms_seq())) && same_shape(start, *p) && p.cfg()
                        == start.cfg() && p.tag_set() == start.tag_set()),
            decreases n - i + (if changed { 0int } else { 1int }),
        {
            let ghost before = *p;
            proof {
                if inert_on(filter, operator, *old(p)) && same_but_log(*old(p), start) {
                    assert(inert_at(filter, operator, text, i, *old(p)));
                }
            }
            let accepted = filter(p, text, i);
            let ghost mid = *p;
            if accepted {
                changed = operator(p, text, i);
            }
            proof {
                assert forall|accepts: spec_fn(Seq<Seq<char>>, int) -> bool, rewrite: spec_fn(Seq<Seq<char>>, int) -> Option<Seq<Seq<char>>>|
                    ((forall|q: &mut Prakriya, t: &str, i: usize, b: bool|
                #[trigger] call_ensures(filter, (q, t, i), b) && same_shape(*old(p), *q) && q.cfg() == old(p).cfg() && t@
                    == concat_texts(q.terms_seq()) && (i as int) < t@.len() ==> same_but_log(
                    *q,
                    *final(q),
                ) && b == accepts(term_texts(q.terms_seq()), i as int)) && (forall|
                q: &mut Prakriya,
                t: &str,
                i: usize,
                c: bool,
            |
                #[trigger] call_ensures(operator, (q, t, i), c) && same_shape(*old(p), *q) && q.cfg() == old(p).cfg() && t@
                    == concat_texts(q.terms_seq()) && (i as int) < t@.len() ==> (c == rewrite(
                    term_texts(q.terms_seq()),
                    i as int,
                ) is Some) && (c ==> same_shape(*q, *final(q)) && final(q).cfg() == q.cfg()
                    && final(q).tag_set() == q.tag_set() && term_texts(final(q).terms_seq())
                    == rewrite(term_texts(q.terms_seq()), i as int)->0) && (!c ==> same_but_log(
                    *q,
                    *final(q),
                )))) implies first_change(accepts, rewrite, term_texts(start.terms_seq()), i as int) == if changed {
                    Some(term_texts(p.terms_seq()))
                } else {
                    first_change(accepts, rewrite, term_texts(start.terms_seq()), i + 1)
                } && (changed ==> same_shape(start, *p) && p.cfg() == start.cfg() && p.tag_set()
                    == start.tag_set()) && (!changed ==> same_but_log(start, *p)) by {
                    assert(settle(accepts, rewrite, term_texts(old(p).terms_seq()), 10) == settle(
                        accepts,
                        rewrite,
                        term_texts(start.terms_seq()),
                        (10 - counter) as nat,
                    ));
                    assert(same_but_log(start, before));
                    assert(same_shape(*old(p), before));
                    assert(accepted == accepts(term_texts(start.terms_seq()), i as int));
                    let xs = term_texts(start.terms_seq());
                    assert(joined(xs).len() == n);
                    if accepted {
                        assert(same_but_log(before, mid));
                        assert(same_shape(*old(p), mid));
                        assert(mid.cfg() == old(p).cfg());
                        assert(term_texts(mid.terms_seq()) == xs);
                        assert(changed == rewrite(xs, i as int) is Some);
                        if changed {
                            assert(term_texts(p.terms_seq()) == rewrite(xs, i as int)->0);
                        }
                    } else {
                        assert(mid == *p);
                    }
                }
            }
            if !changed {
                i = i + 1;
            }
        }
        if !changed {
            return true;
        }
        if counter >= 10 {
            return false;
        }
        counter = counter + 1;
    }
}

/// Whether, on a derivation like `x` but for its log, a call of `filter` on the two sounds of
/// `text` at `i` can reject them.
pub open spec fn pair_rejected<F>(filter: F, text: &str, i: usize, x: Prakriya) -> bool where
    F: Fn(&mut Prakriya, char, char, usize, usize) -> bool,
 {
    exists|q: &mut Prakriya|
        same_but_log(x, *q) && #[trigger] call_ensures(
            filter,
            (q, text@[i as int], text@[i + 1], i, (i + 1) as usize),
            false,
        )
}

/// Whether the legacy rule of `filter` finds nothing to change on `x`: on a derivation
/// `start` like `x` but for its log, the filter can reject every pair of neighboring sounds
/// of the text of `start`.
pub open spec fn quiet_on_pairs<F>(filter: F, x: Prakriya) -> bool where
    F: Fn(&mut Prakriya, char, char, usize, usize) -> bool,
 {
    exists|start: Prakriya, text: &str|
        #![trigger same_but_log(start, x), text@]
        same_but_log(start, x) && text@ == concat_texts(start.terms_seq()) && text@.len()
            <= usize::MAX && forall|i: usize|
            (i + 1 < text@.len()) ==> #[trigger] pair_rejected(filter, text, i, start)
}

proof fn lemma_pairs_pure<F, FF, OO>(filter: F, f: FF, o: OO) where
    F: Fn(&mut Prakriya, char, char, usize, usize) -> bool,
    FF: Fn(&mut Prakriya, &str, usize) -> bool,
    OO: Fn(&mut Prakriya, &str, usize) -> bool,

    requires
        forall|q: &mut Prakriya, t: &str, i: usize, b: bool|
            #[trigger] call_ensures(f, (q, t, i), b) ==> (i + 1 < t@.len() ==> exists|
                q2: &mut Prakriya,
            |
                *q2 == *q && *final(q2) == *final(q) && #[trigger] call_ensures(
                    filter,
                    (q2, t@[i as int], t@[i + 1], i, (i + 1) as usize),
                    b,
                )) && (i + 1 >= t@.len() ==> !b && *final(q) == *q),
        forall|q: &mut Prakriya, t: &str, i: usize, b: bool|
            #[trigger] call_ensures(o, (q, t, i), b) ==> (i + 1 < t@.len() ==> b) && (i + 1
                >= t@.len() ==> !b && *final(q) == *q),
    ensures
        (forall|q: &mut Prakriya, x: char, y: char, i: usize, j: usize, b: bool|
            #[trigger] call_ensures(filter, (q, x, y, i, j), b) ==> same_but_log(*q, *final(q)))
            ==> ((forall|q: &mut Prakriya, t: &str, i: usize, b: bool|
            #[trigger] call_ensures(f, (q, t, i), b) ==> same_but_log(*q, *final(q))) && (forall|
            q: &mut Prakriya,
            t: &str,
            i: usize,
        | #[trigger] call_ensures(o, (q, t, i), false) ==> same_but_log(*q, *final(q)))),
{
}

proof fn lemma_pairs_quiet<F, FF, OO>(filter: F, f: FF, o: OO, x: Prakriya) where
    F: Fn(&mut Prakriya, char, char, usize, usize) -> bool,
    FF: Fn(&mut Prakriya, &str, usize) -> bool,
    OO: Fn(&mut Prakriya, &str, usize) -> bool,

    requires
        forall|q: &mut Prakriya, t: &str, i: usize, b: bool|
            #[trigger] call_ensures(f, (q, t, i), b) ==> (i + 1 < t@.len() ==> exists|
                q2: &mut Prakriya,
            |
                *q2 == *q && *final(q2) == *final(q) && #[trigger] call_ensures(
                    filter,
                    (q2, t@[i as int], t@[i + 1], i, (i + 1) as usize),
                    b,
                )) && (i + 1 >= t@.len() ==> !b && *final(q) == *q),
        forall|q: &mut Prakriya, t: &str, i: usize, b: bool|
            #[trigger] call_ensures(o, (q, t, i), b) ==> (i + 1 < t@.len() ==> b) && (i + 1
                >= t@.len() ==> !b && *final(q) == *q),
    ensures
        quiet_on(f, o, x) ==> quiet_on_pairs(filter, x),
{
    if quiet_on(f, o, x) {
        let (start, text) = choose|start: Prakriya, text: &str|
            #![trigger same_but_log(start, x), text@]
            same_but_log(start, x) && text@ == concat_texts(start.terms_seq()) && text@.len()
                <= usize::MAX && forall|i: usize|
                (i as int) < text@.len() ==> #[trigger] quiet_at(f, o, text, i, start);
        assert forall|i: usize| i + 1 < text@.len() implies #[trigger] pair_rejected(
            filter,
            text,
            i,
            start,
        ) by {
            assert(quiet_at(f, o, text, i, start));
            let (q, b) = choose|q: &mut Prakriya, b: bool|
                same_but_log(start, *q) && #[trigger] call_ensures(f, (q, text, i), b) && (b
                    ==> exists|q2: &mut Prakriya|
                    same_but_log(start, *q2) && #[trigger] call_ensures(o, (q2, text, i), false));
            if b {
                let q2 = choose|q2: &mut Prakriya|
                    same_but_log(start, *q2) && #[trigger] call_ensures(o, (q2, text, i), false);
                assert(call_ensures(o, (q2, text, i), false));
            }
            let q3 = choose|q3: &mut Prakriya|
                *q3 == *q && *final(q3) == *final(q) && #[trigger] call_ensures(
                    filter,
                    (q3, text@[i as int], text@[i + 1], i, (i + 1) as usize),
                    b,
                );
            assert(same_but_log(start, *q3));
        }
        assert(same_but_log(start, x));
    }
}

/// A rule whose filter applies `inner` to two neighboring sounds (`xy`) surely has nothing to
/// do where `inner` rejects every pair of neighboring sounds of the text.
pub proof fn lemma_xy_inert<FF, OO, II>(f: FF, o: OO, inner: II, x: Prakriya) where
    FF: Fn(&mut Prakriya, &str, usize) -> bool,
    OO: Fn(&mut Prakriya, &str, usize) -> bool,
    II: Fn(char, char) -> bool,

    requires
        forall|q: &mut Prakriya, t: &str, i: usize, b: bool|
            #[trigger] call_ensures(f, (q, t, i), b) ==> if i + 1 < t@.len() {
                call_ensures(inner, (t@[i as int], t@[i + 1]), b)
            } else {
                !b
            },
        forall|i: int, b: bool|
            0 <= i && i + 1 < concat_texts(x.terms_seq()).len() && #[trigger] call_ensures(
                inner,
                (concat_texts(x.terms_seq())[i], concat_texts(x.terms_seq())[i + 1]),
                b,
            ) ==> !b,
    ensures
        inert_on(f, o, x),
{
    assert forall|text: &str, i: usize|
        text@ == concat_texts(x.terms_seq()) && (i as int) < text@.len() implies #[trigger] inert_at(
        f,
        o,
        text,
        i,
        x,
    ) by {
        assert forall|q: &mut Prakriya, b: bool|
            same_but_log(x, *q) && #[trigger] call_ensures(f, (q, text, i), b) implies !b by {
            if i + 1 < text@.len() {
                assert(call_ensures(inner, (text@[i as int], text@[i + 1]), b));
            }
        }
    }
}

/// A rule surely has nothing to do where its filter accepts an index only where `cond` holds of
/// the text and the index, and `cond` holds at no index of the text of `x`.
pub proof fn lemma_cond_inert<FF, OO>(
    f: FF,
    o: OO,
    cond: spec_fn(Seq<char>, int) -> bool,
    x: Prakriya,
) where
    FF: Fn(&mut Prakriya, &str, usize) -> bool,
    OO: Fn(&mut Prakriya, &str, usize) -> bool,

    requires
        forall|q: &mut Prakriya, t: &str, i: usize, b: bool|
            #[trigger] call_ensures(f, (q, t, i), b) && b ==> cond(t@, i as int),
        forall|i: int|
            0 <= i < concat_texts(x.terms_seq()).len() ==> !#[trigger] cond(
                concat_texts(x.terms_seq()),
                i,
            ),
    ensures
        inert_on(f, o, x),
{
    assert forall|text: &str, i: usize|
        text@ == concat_texts(x.terms_seq()) && (i as int) < text@.len() implies #[trigger] inert_at(
        f,
        o,
        text,
        i,
        x,
    ) by {
        assert forall|q: &mut Prakriya, b: bool|
            same_but_log(x, *q) && #[trigger] call_ensures(f, (q, text, i), b) implies !b by {
            assert(!cond(concat_texts(x.terms_seq()), i as int));
        }
    }
}

/// A rule surely has nothing to do where its filter accepts an index only where `accepts`
/// holds of the text and the index, its operator reports a change on a derivation like `x` but
/// for its log only where `changes` holds, and the two hold together at no index of the text
/// of `x`.
pub proof fn lemma_cond_pair_inert<FF, OO>(
    f: FF,
    o: OO,
    accepts: spec_fn(Seq<char>, int) -> bool,
    changes: spec_fn(Seq<char>, int) -> bool,
    x: Prakriya,
) where
    FF: Fn(&mut Prakriya, &str, usize) -> bool,
    OO: Fn(&mut Prakriya, &str, usize) -> bool,

    requires
        forall|q: &mut Prakriya, t: &str, i: usize, b: bool|
            #[trigger] call_ensures(f, (q, t, i), b) && b ==> accepts(t@, i as int),
        forall|q: &mut Prakriya, t: &str, i: usize, c: bool|
            #[trigger] call_ensures(o, (q, t, i), c) && c && same_but_log(x, *q) ==> changes(
                t@,
                i as int,
            ),
        forall|i: int|
            0 <= i < concat_texts(x.terms_seq()).len() && #[trigger] accepts(
                concat_texts(x.terms_seq()),
                i,
            ) ==> !changes(concat_texts(x.terms_seq()), i),
    ensures
        inert_on(f, o, x),
{
    assert forall|text: &str, i: usize|
        text@ == concat_texts(x.terms_seq()) && (i as int) < text@.len() implies #[trigger] inert_at(
        f,
        o,
        text,
        i,
        x,
    ) by {
        assert forall|q: &mut Prakriya, b: bool|
            same_but_log(x, *q) && #[trigger] call_ensures(f, (q, text, i), b) && b implies forall|
            q2: &mut Prakriya,
            c: bool,
        | same_but_log(x, *q2) && #[trigger] call_ensures(o, (q2, text, i), c) ==> !c by {
            assert(accepts(concat_texts(x.terms_seq()), i as int));
        }
    }
}

/// Terms with the same texts have the same joined text.
pub proof fn lemma_concat_by_texts(a: Seq<Term>, b: Seq<Term>)
    requires
        term_texts(a) == term_texts(b),
    ensures
        concat_texts(a) == concat_texts(b),
    decreases a.len(),
{
    assert(a.len() == term_texts(a).len());
    if a.len() > 0 {
        assert(term_texts(a.drop_last()) =~= term_texts(b.drop_last())) by {
            assert forall|k: int| 0 <= k < a.len() - 1 implies #[trigger] term_texts(a.drop_last())[k]
                == term_texts(b.drop_last())[k] by {
                assert(term_texts(a)[k] == term_texts(b)[k]);
            }
        }
        lemma_concat_by_texts(a.drop_last(), b.drop_last());
        assert(term_texts(a)[a.len() - 1] == term_texts(b)[a.len() - 1]);
    }
}

/// Whether, on every derivation like `x` but for its log, every call of `filter` on two
/// neighboring sounds of the text of `x` rejects them.
pub open spec fn rejects_all_pairs<F>(filter: F, x: Prakriya) -> bool where
    F: Fn(&mut Prakriya, char, char, usize, usize) -> bool,
 {
    forall|q: &mut Prakriya, a: char, c: char, i: usize, j: usize, b: bool|
        same_but_log(x, *q) && #[trigger] call_ensures(filter, (q, a, c, i, j), b) && i + 1
            < concat_texts(x.terms_seq()).len() && a == concat_texts(x.terms_seq())[i as int] && c
            == concat_texts(x.terms_seq())[i + 1] && j == (i + 1) as usize ==> !b
}

proof fn lemma_pairs_inert<F, FF, OO>(filter: F, f: FF, o: OO, x: Prakriya) where
    F: Fn(&mut Prakriya, char, char, usize, usize) -> bool,
    FF: Fn(&mut Prakriya, &str, usize) -> bool,
    OO: Fn(&mut Prakriya, &str, usize) -> bool,

    requires
        forall|q: &mut Prakriya, t: &str, i: usize, b: bool|
            #[trigger] call_ensures(f, (q, t, i), b) ==> (i + 1 < t@.len() ==> exists|
                q2: &mut Prakriya,
            |
                *q2 == *q && *final(q2) == *final(q) && #[trigger] call_ensures(
                    filter,
                    (q2, t@[i as int], t@[i + 1], i, (i + 1) as usize),
                    b,
                )) && (i + 1 >= t@.len() ==> !b && *final(q) == *q),
        rejects_all_pairs(filter, x),
    ensures
        inert_on(f, o, x),
{
    assert forall|text: &str, i: usize|
        text@ == concat_texts(x.terms_seq()) && (i as int) < text@.len() implies #[trigger] inert_at(
        f,
        o,
        text,
        i,
        x,
    ) by {
        assert forall|q: &mut Prakriya, b: bool|
            same_but_log(x, *q) && #[trigger] call_ensures(f, (q, text, i), b) implies !b by {
            if i + 1 < text@.len() {
                let q2 = choose|q2: &mut Prakriya|
                    *q2 == *q && *final(q2) == *final(q) && #[trigger] call_ensures(
                        filter,
                        (q2, text@[i as int], text@[i + 1], i, (i + 1) as usize),
                        b,
                    );
                assert(same_but_log(x, *q2));
                assert(call_ensures(filter, (q2, text@[i as int], text@[i + 1], i, (i + 1) as usize), b));
            }
        }
    }
}

/// Applies a sound-based rule whose filter and operator take the two neighboring sounds at
/// `i` and `j = i + 1`: `char_rule` where the operator always reports a change.
///
/// Where the filter changes at most the log of the derivation, a result of `true` means that
/// the filter rejects every pair of neighboring sounds of the result; and where it surely
/// rejects every pair of the input (`rejects_all_pairs`), the result is true and only the log
/// changes.
pub fn char_rule_legacy(
    p: &mut Prakriya,
    filter: impl Fn(&mut Prakriya, char, char, usize, usize) -> bool,
    operator: impl Fn(&mut Prakriya, char, char, usize, usize),
) -> (done: bool)
    requires
        forall|q: &mut Prakriya, x: char, y: char, i: usize, j: usize|
            call_requires(filter, (q, x, y, i, j)),
        forall|q: &mut Prakriya, x: char, y: char, i: usize, j: usize|
            call_requires(operator, (q, x, y, i, j)),
    ensures
        done ==> (forall|q: &mut Prakriya, x: char, y: char, i: usize, j: usize, b: bool|
            #[trigger] call_ensures(filter, (q, x, y, i, j), b) ==> same_but_log(*q, *final(q)))
            ==> quiet_on_pairs(filter, *final(p)),
        ((forall|q: &mut Prakriya, x: char, y: char, i: usize, j: usize, b: bool|
            #[trigger] call_ensures(filter, (q, x, y, i, j), b) ==> same_but_log(*q, *final(q)))
            && rejects_all_pairs(filter, *old(p))) ==> done && same_but_log(*old(p), *final(p)),
{
    let filter_ref = &filter;
    let operator_ref = &operator;
    let f = |q: &mut Prakriya, text: &str, i: usize| -> (b: bool)
        ensures
            i + 1 < text@.len() ==> exists|q2: &mut Prakriya|
                *q2 == *old(q) && *final(q2) == *final(q) && #[trigger] call_ensures(
                    *filter_ref,
                    (q2, text@[i as int], text@[i + 1], i, (i + 1) as usize),
                    b,
                ),
            i + 1 >= text@.len() ==> !b && *final(q) == *old(q),
        {
            let n = text.unicode_len();
            if i < n && n - i > 1 {
                let x = text.get_char(i);
                let y = text.get_char(i + 1);
                filter_ref(q, x, y, i, i + 1)
            } else {
                false
            }
        };
    let o = |q: &mut Prakriya, text: &str, i: usize| -> (b: bool)
        ensures
            i + 1 < text@.len() ==> b,
            i + 1 >= text@.len() ==> !b && *final(q) == *old(q),
        {
            let n = text.unicode_len();
            if i < n && n - i > 1 {
                let x = text.get_char(i);
                let y = text.get_char(i + 1);
                operator_ref(q, x, y, i, i + 1);
                true
            } else {
                false
            }
        };
    proof {
        if rejects_all_pairs(filter, *p) {
            lemma_pairs_inert(filter, f, o, *p);
        }
    }
    let done = char_rule(p, f, o);
    proof {
        lemma_pairs_pure(filter, f, o);
        lemma_pairs_quiet(filter, f, o, *p);
    }
    done
}

/// Returns the three sounds of `text` that start at `i`, if there are three.
pub fn xyz(p: &Prakriya, text: &str, i: usize) -> (r: Option<(char, char, char)>)
    ensures
        r == if i + 2 < text@.len() {
            Some((text@[i as int], text@[i + 1], text@[i + 2]))
        } else {
            None
        },
{
    let n = text.unicode_len();
    if i < n && n - i > 2 {
        Some((text.get_char(i), text.get_char(i + 1), text.get_char(i + 2)))
    } else {
        None
    }
}

/// Returns a sound filter that applies `inner` to the two sounds of the text that start at
/// the index; where there are not two, the filter fails.
pub fn xy(inner: impl Fn(char, char) -> bool) -> (r: impl Fn(&mut Prakriya, &str, usize) -> bool)
    requires
        forall|x: char, y: char| call_requires(inner, (x, y)),
    ensures
        forall|p: &mut Prakriya, text: &str, i: usize| call_requires(r, (p, text, i)),
        forall|p: &mut Prakriya, text: &str, i: usize, b: bool|
            #[trigger] call_ensures(r, (p, text, i), b) ==> *final(p) == *p && if i + 1 < text@.len() {
                call_ensures(inner, (text@[i as int], text@[i + 1]), b)
            } else {
                !b
            },
{
    move |p: &mut Prakriya, text: &str, i: usize| -> (b: bool)
        ensures
            *final(p) == *old(p),
            if i + 1 < text@.len() {
                call_ensures(inner, (text@[i as int], text@[i + 1]), b)
            } else {
                !b
            },
        {
            let n = text.unicode_len();
            if i < n && n - i > 1 {
                inner(text.get_char(i), text.get_char(i + 1))
            } else {
                false
            }
        }
}

/// Returns a legacy sound filter that applies `inner` to the two sounds it is given.
pub fn xy2(inner: impl Fn(char, char) -> bool) -> (r: impl Fn(
    &mut Prakriya,
    char,
    char,
    usize,
    usize,
) -> bool)
    requires
        forall|x: char, y: char| call_requires(inner, (x, y)),
    ensures
        forall|p: &mut Prakriya, x: char, y: char, i: usize, j: usize|
            call_requires(r, (p, x, y, i, j)),
        forall|p: &mut Prakriya, x: char, y: char, i: usize, j: usize, b: bool|
            #[trigger] call_ensures(r, (p, x, y, i, j), b) ==> *final(p) == *p && call_ensures(
                inner,
                (x, y),
                b,
            ),
{
    move |p: &mut Prakriya, x: char, y: char, i: usize, j: usize| -> (b: bool)
        ensures
            *final(p) == *old(p),
            call_ensures(inner, (x, y), b),
        { inner(x, y) }
}

} // verus!
