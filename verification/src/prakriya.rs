//! `Prakriya`, a derivation in progress, and `PrakriyaStack`, which explores the derivations
//! that the optional rules allow.
use crate::constants::{Tag, TagSet};
use crate::strings;
use crate::term::{Term, TermView};
use compact_str::CompactString;
use vstd::prelude::*;

verus! {

/// A string code for some grammar rule. All rule codes are static strings.
pub type Rule = &'static str;

/// Declares `CompactString` so that a derivation can return its text as one.
#[verifier::external_type_specification]
#[verifier::external_body]
pub struct ExCompactString(CompactString);

/// The chars that a `CompactString` holds.
pub uninterp spec fn compact_chars(s: CompactString) -> Seq<char>;

/// Calls `CompactString::from(&str)`, which the crate documents as creating a compact string
/// with the same contents. The contract claims that the new string holds the chars of `s`.
#[verifier::external_body]
pub(crate) fn compact_from(s: &str) -> (r: CompactString)
    ensures
        compact_chars(r) == s@,
{
    CompactString::from(s)
}

/// Calls `CompactString::as_str`, which the crate documents as returning a string slice that
/// holds the entire compact string. The contract claims that the slice holds its chars.
#[verifier::external_body]
pub(crate) fn compact_as_str(c: &CompactString) -> (r: &str)
    ensures
        r@ == compact_chars(*c),
{
    c.as_str()
}

/// Calls `CompactString::push_str`, which the crate documents as appending a string slice onto
/// the end. The contract claims that the chars of `s` are appended.
#[verifier::external_body]
pub(crate) fn compact_push_str(c: &mut CompactString, s: &str)
    ensures
        compact_chars(*final(c)) == compact_chars(*old(c)) + s@,
{
    c.push_str(s);
}

/// Represents a step of the derivation.
#[derive(Debug)]
pub struct Step {
    /// The rule that produced the current step.
    pub rule: Rule,
    /// Output for the current step.
    pub state: String,
}

/// A decision about an optional rule.
#[derive(Clone, Copy, Debug)]
pub enum RuleChoice {
    /// Whether a rule was used during the derivation.
    Accept(Rule),
    /// Whether a rule was declined during the derivation.
    Decline(Rule),
}

/// The code of the rule that a choice is about.
pub open spec fn choice_rule(c: RuleChoice) -> Seq<char> {
    match c {
        RuleChoice::Accept(r) => r@,
        RuleChoice::Decline(r) => r@,
    }
}

/// The same choice about the same rule, made the other way.
pub open spec fn flip(c: RuleChoice) -> RuleChoice {
    match c {
        RuleChoice::Accept(r) => RuleChoice::Decline(r),
        RuleChoice::Decline(r) => RuleChoice::Accept(r),
    }
}

/// The first index, at `i` or later, of a choice about the rule `r`; -1 where there is none.
pub open spec fn first_choice(cs: Seq<RuleChoice>, r: Seq<char>, i: int) -> int
    decreases cs.len() - i,
{
    if i >= cs.len() || i < 0 {
        -1
    } else if choice_rule(cs[i]) == r {
        i
    } else {
        first_choice(cs, r, i + 1)
    }
}

/// Whether the choices `cs` allow the optional rule `r`: the first choice about `r` accepts it,
/// or no choice is about `r`.
pub open spec fn allows(cs: Seq<RuleChoice>, r: Seq<char>) -> bool {
    let k = first_choice(cs, r, 0);
    k < 0 || cs[k] is Accept
}

/// The text of `ts` as a step records it: the texts joined by " + ", where leading empty texts
/// add no separator.
pub open spec fn joined_state(ts: Seq<Term>) -> Seq<char>
    decreases ts.len(),
{
    if ts.len() == 0 {
        Seq::empty()
    } else {
        let a = joined_state(ts.drop_last());
        if a.len() == 0 {
            a + ts.last().text@
        } else {
            a + seq![' ', '+', ' '] + ts.last().text@
        }
    }
}

/// The texts of `ts`, concatenated.
pub open spec fn concat_texts(ts: Seq<Term>) -> Seq<char>
    decreases ts.len(),
{
    if ts.len() == 0 {
        Seq::empty()
    } else {
        concat_texts(ts.drop_last()) + ts.last().text@
    }
}

/// Settings for a derivation.
pub struct Config {
    /// Decisions about optional rules, consulted in order.
    pub rule_choices: Vec<RuleChoice>,
    /// Whether to record each step of the derivation.
    pub log_steps: bool,
}

impl Default for Config {
    fn default() -> (r: Self)
        ensures
            r.rule_choices@.len() == 0,
            !r.log_steps,
    {
        Config { rule_choices: Vec::new(), log_steps: false }
    }
}

impl Config {
    /// Creates a config with no rule choices that does not record steps.
    pub fn new() -> (r: Self)
        ensures
            r.rule_choices@.len() == 0,
            !r.log_steps,
    {
        Self::default()
    }
}

/// Models a derivation.
pub struct Prakriya {
    terms: Vec<Term>,
    tags: TagSet,
    history: Vec<Step>,
    /// The settings of this derivation.
    pub config: Config,
    rule_decisions: Vec<RuleChoice>,
}

impl Prakriya {
    /// The terms of the derivation.
    pub closed spec fn terms_seq(&self) -> Seq<Term> {
        self.terms@
    }

    /// The tags of the derivation as a whole.
    pub closed spec fn tag_set(&self) -> Set<Tag> {
        self.tags@
    }

    /// The recorded steps.
    pub closed spec fn steps(&self) -> Seq<Step> {
        self.history@
    }

    /// The decisions made about optional rules so far.
    pub closed spec fn decisions(&self) -> Seq<RuleChoice> {
        self.rule_decisions@
    }

    /// The settings of the derivation.
    pub closed spec fn cfg(&self) -> Config {
        self.config
    }

    /// Whether `b` is `a` with only its terms changed.
    pub open spec fn same_but_terms(a: Prakriya, b: Prakriya) -> bool {
        a.tag_set() == b.tag_set() && a.steps() == b.steps() && a.cfg() == b.cfg()
            && a.decisions() == b.decisions()
    }

    /// Whether `b` is `a` with only its tags changed.
    pub open spec fn same_but_tags(a: Prakriya, b: Prakriya) -> bool {
        a.terms_seq() == b.terms_seq() && a.steps() == b.steps() && a.cfg() == b.cfg()
            && a.decisions() == b.decisions()
    }

    /// Whether `b` is `a` with only its decisions changed.
    pub open spec fn same_but_decisions(a: Prakriya, b: Prakriya) -> bool {
        a.terms_seq() == b.terms_seq() && a.tag_set() == b.tag_set() && a.steps() == b.steps()
            && a.cfg() == b.cfg()
    }

    /// Whether the steps `after` are the steps `before` after a step for `code` on the terms
    /// `ts`: one more step that holds `code` and the joined texts, where steps are recorded.
    pub open spec fn logged(before: Seq<Step>, after: Seq<Step>, log: bool, code: Rule, ts: Seq<
        Term,
    >) -> bool {
        if log {
            &&& after.len() == before.len() + 1
            &&& after.subrange(0, before.len() as int) == before
            &&& after.last().rule == code
            &&& after.last().state@ == joined_state(ts)
        } else {
            after == before
        }
    }

    /// Whether `b` is `a` with its terms changed and steps recorded: the tags, the settings
    /// and the decisions are kept, and the steps of `a` stay first (and are all the steps
    /// where `a` records none).
    pub open spec fn rewrote(a: Prakriya, b: Prakriya) -> bool {
        &&& a.tag_set() == b.tag_set()
        &&& a.cfg() == b.cfg()
        &&& a.decisions() == b.decisions()
        &&& a.steps().len() <= b.steps().len()
        &&& b.steps().subrange(0, a.steps().len() as int) == a.steps()
        &&& !a.cfg().log_steps ==> b.steps() == a.steps()
    }

    /// Whether `b` is `a` with its terms changed, steps recorded and decisions on optional
    /// rules made: the tags and the settings are kept, and the steps and the decisions of `a`
    /// stay first.
    pub open spec fn revised(a: Prakriya, b: Prakriya) -> bool {
        &&& a.tag_set() == b.tag_set()
        &&& a.cfg() == b.cfg()
        &&& a.decisions().len() <= b.decisions().len()
        &&& b.decisions().subrange(0, a.decisions().len() as int) == a.decisions()
        &&& a.steps().len() <= b.steps().len()
        &&& b.steps().subrange(0, a.steps().len() as int) == a.steps()
        &&& !a.cfg().log_steps ==> b.steps() == a.steps()
    }

    /// Whether `b` is `a` after a step for `code`: where `a` records steps, one more step that
    /// holds `code` and the joined texts of the terms; nothing else changes.
    pub open spec fn stepped(a: Prakriya, b: Prakriya, code: Rule) -> bool {
        &&& a.terms_seq() == b.terms_seq()
        &&& a.tag_set() == b.tag_set()
        &&& a.cfg() == b.cfg()
        &&& a.decisions() == b.decisions()
        &&& Self::logged(a.steps(), b.steps(), a.cfg().log_steps, code, a.terms_seq())
    }

    // Constructors
    /// Creates an empty prakriya.
    pub fn new() -> (p: Self)
        ensures
            p.terms_seq().len() == 0,
            p.tag_set() == Set::<Tag>::empty(),
            p.steps().len() == 0,
            p.decisions().len() == 0,
            p.cfg().rule_choices@.len() == 0,
            !p.cfg().log_steps,
    {
        Prakriya {
            terms: Vec::new(),
            tags: TagSet::new(),
            history: Vec::new(),
            config: Config::new(),
            rule_decisions: Vec::new(),
        }
    }

    /// Creates an empty prakriya with the given settings.
    pub fn with_config(config: Config) -> (p: Self)
        ensures
            p.terms_seq().len() == 0,
            p.tag_set() == Set::<Tag>::empty(),
            p.steps().len() == 0,
            p.decisions().len() == 0,
            p.cfg() == config,
    {
        let mut p = Prakriya::new();
        p.config = config;
        p
    }

    // Term accessors
    /// Returns the decisions made about optional rules so far.
    pub fn rule_choices(&self) -> (r: &Vec<RuleChoice>)
        ensures
            r@ == self.decisions(),
    {
        &self.rule_decisions
    }

    /// Returns the recorded steps.
    pub fn history(&self) -> (r: &Vec<Step>)
        ensures
            r@ == self.steps(),
    {
        &self.history
    }

    /// Returns the tags of the derivation as a whole.
    pub fn tags(&self) -> (r: &TagSet)
        ensures
            r@ == self.tag_set(),
    {
        &self.tags
    }

    /// Returns all terms.
    pub fn terms(&self) -> (r: &Vec<Term>)
        ensures
            r@ == self.terms_seq(),
    {
        &self.terms
    }

    /// Returns all terms mutably.
    pub fn terms_mut(&mut self) -> (r: &mut Vec<Term>)
        ensures
            r@ == old(self).terms_seq(),
            final(self).terms_seq() == final(r)@,
            Self::same_but_terms(*old(self), *final(self)),
    {
        &mut self.terms
    }

    /// Returns the term at index `i`, if any.
    pub fn get(&self, i: usize) -> (r: Option<&Term>)
        ensures
            r == if i < self.terms_seq().len() {
                Some(&self.terms_seq()[i as int])
            } else {
                None
            },
    {
        if i < self.terms.len() {
            Some(&self.terms[i])
        } else {
            None
        }
    }

    /// Returns the term at index `i` mutably, if any.
    pub fn get_mut(&mut self, i: usize) -> (r: Option<&mut Term>)
        ensures
            r is Some <==> i < old(self).terms_seq().len(),
            r matches Some(t) ==> *t == old(self).terms_seq()[i as int] && final(self).terms_seq()
                == old(self).terms_seq().update(i as int, *final(t)),
            r is None ==> final(self).terms_seq() == old(self).terms_seq(),
            Self::same_but_terms(*old(self), *final(self)),
    {
        if i < self.terms.len() {
            Some(&mut self.terms[i])
        } else {
            None
        }
    }

    /// Returns the view that starts at term `i`, if any.
    pub fn view(&self, i: usize) -> (r: Option<TermView<'_>>)
        ensures
            r is None <==> i >= self.terms_seq().len(),
            r matches Some(v) ==> v.all_terms() == self.terms_seq() && v.first_index() == i
                && v.last_index() == crate::term::view_end(self.terms_seq(), i as int, i as int)
                && v.first_index() <= v.last_index() < self.terms_seq().len(),
    {
        TermView::new(&self.terms, i)
    }

    /// Returns the index of the first term that `f` accepts, if any.
    pub fn find_first_where(&self, f: impl Fn(&Term) -> bool) -> (r: Option<usize>)
        requires
            forall|t: &Term| call_requires(f, (t,)),
        ensures
            r matches Some(i) ==> i < self.terms_seq().len() && call_ensures(
                f,
                (&self.terms_seq()[i as int],),
                true,
            ) && forall|j: int|
                0 <= j < i ==> call_ensures(f, (&self.terms_seq()[j],), false),
            r is None ==> forall|j: int|
                0 <= j < self.terms_seq().len() ==> call_ensures(f, (&self.terms_seq()[j],), false),
    {
        let mut i: usize = 0;
        while i < self.terms.len()
            invariant
                i <= self.terms@.len(),
                forall|t: &Term| call_requires(f, (t,)),
                forall|j: int| 0 <= j < i ==> call_ensures(f, (&self.terms@[j],), false),
            decreases self.terms@.len() - i,
        {
            if f(&self.terms[i]) {
                return Some(i);
            }
            i = i + 1;
        }
        None
    }

    /// Returns the index of the first `Term` that has the given tag, if any.
    pub fn find_first(&self, tag: Tag) -> (r: Option<usize>)
        ensures
            r matches Some(i) ==> i < self.terms_seq().len() && self.terms_seq()[i as int].tagged(
                tag,
            ) && forall|j: int| 0 <= j < i ==> !(#[trigger] self.terms_seq()[j]).tagged(tag),
            r is None ==> forall|j: int|
                0 <= j < self.terms_seq().len() ==> !(#[trigger] self.terms_seq()[j]).tagged(tag),
    {
        let mut i: usize = 0;
        while i < self.terms.len()
            invariant
                i <= self.terms@.len(),
                forall|j: int| 0 <= j < i ==> !(#[trigger] self.terms@[j]).tagged(tag),
            decreases self.terms@.len() - i,
        {
            if self.terms[i].has_tag(tag) {
                return Some(i);
            }
            i = i + 1;
        }
        None
    }

    /// Returns the index of the last term before `start_index` that `filter` accepts, if the
    /// term at `start_index` exists.
    pub fn find_prev_where(&self, start_index: usize, filter: impl Fn(&Term) -> bool) -> (r:
        Option<usize>)
        requires
            forall|t: &Term| call_requires(filter, (t,)),
        ensures
            start_index >= self.terms_seq().len() ==> r is None,
            r matches Some(i) ==> i < start_index && call_ensures(
                filter,
                (&self.terms_seq()[i as int],),
                true,
            ) && forall|j: int|
                i < j < start_index ==> call_ensures(filter, (&self.terms_seq()[j],), false),
            r is None && start_index < self.terms_seq().len() ==> forall|j: int|
                0 <= j < start_index ==> call_ensures(filter, (&self.terms_seq()[j],), false),
    {
        if start_index < self.terms.len() {
            let mut i: usize = start_index;
            while i > 0
                invariant
                    i <= start_index < self.terms@.len(),
                    forall|t: &Term| call_requires(filter, (t,)),
                    forall|j: int|
                        i <= j < start_index ==> call_ensures(filter, (&self.terms@[j],), false),
                decreases i,
            {
                if filter(&self.terms[i - 1]) {
                    return Some(i - 1);
                }
                i = i - 1;
            }
            None
        } else {
            None
        }
    }

    /// Returns the index of the first term after `start_index` that `filter` accepts, if the
    /// term at `start_index` exists.
    pub fn find_next_where(&self, start_index: usize, filter: impl Fn(&Term) -> bool) -> (r:
        Option<usize>)
        requires
            forall|t: &Term| call_requires(filter, (t,)),
        ensures
            start_index >= self.terms_seq().len() ==> r is None,
            r matches Some(i) ==> start_index < i < self.terms_seq().len() && call_ensures(
                filter,
                (&self.terms_seq()[i as int],),
                true,
            ) && forall|j: int|
                start_index < j < i ==> call_ensures(filter, (&self.terms_seq()[j],), false),
            r is None && start_index < self.terms_seq().len() ==> forall|j: int|
                start_index < j < self.terms_seq().len() ==> call_ensures(
                    filter,
                    (&self.terms_seq()[j],),
                    false,
                ),
    {
        if start_index < self.terms.len() {
            let mut i: usize = start_index + 1;
            while i < self.terms.len()
                invariant
                    start_index < i <= self.terms@.len(),
                    forall|t: &Term| call_requires(filter, (t,)),
                    forall|j: int|
                        start_index < j < i ==> call_ensures(filter, (&self.terms@[j],), false),
                decreases self.terms@.len() - i,
            {
                if filter(&self.terms[i]) {
                    return Some(i);
                }
                i = i + 1;
            }
            None
        } else {
            None
        }
    }

    /// Returns the index of the last term that `f` accepts, if any.
    pub fn find_last_where(&self, f: impl Fn(&Term) -> bool) -> (r: Option<usize>)
        requires
            forall|t: &Term| call_requires(f, (t,)),
        ensures
            r matches Some(i) ==> i < self.terms_seq().len() && call_ensures(
                f,
                (&self.terms_seq()[i as int],),
                true,
            ) && forall|j: int|
                i < j < self.terms_seq().len() ==> call_ensures(f, (&self.terms_seq()[j],), false),
            r is None ==> forall|j: int|
                0 <= j < self.terms_seq().len() ==> call_ensures(f, (&self.terms_seq()[j],), false),
    {
        let mut i: usize = self.terms.len();
        while i > 0
            invariant
                i <= self.terms@.len(),
                forall|t: &Term| call_requires(f, (t,)),
                forall|j: int| i <= j < self.terms@.len() ==> call_ensures(f, (&self.terms@[j],), false),
            decreases i,
        {
            if f(&self.terms[i - 1]) {
                return Some(i - 1);
            }
            i = i - 1;
        }
        None
    }

    /// Returns the index of the last `Term` that has the given tag, if any.
    pub fn find_last(&self, tag: Tag) -> (r: Option<usize>)
        ensures
            r matches Some(i) ==> i < self.terms_seq().len() && self.terms_seq()[i as int].tagged(
                tag,
            ) && forall|j: int|
                i < j < self.terms_seq().len() ==> !(#[trigger] self.terms_seq()[j]).tagged(tag),
            r is None ==> forall|j: int|
                0 <= j < self.terms_seq().len() ==> !(#[trigger] self.terms_seq()[j]).tagged(tag),
    {
        let mut i: usize = self.terms.len();
        while i > 0
            invariant
                i <= self.terms@.len(),
                forall|j: int| i <= j < self.terms@.len() ==> !(#[trigger] self.terms@[j]).tagged(tag),
            decreases i,
        {
            if self.terms[i - 1].has_tag(tag) {
                return Some(i - 1);
            }
            i = i - 1;
        }
        None
    }

    /// Returns all of the terms that have the given tag, in order.
    pub fn find_all<'a>(&'a self, tag: &'a Tag) -> (r: Vec<&'a Term>)
        ensures
            r@.len() <= self.terms_seq().len(),
            forall|k: int| 0 <= k < r@.len() ==> (#[trigger] r@[k]).tagged(*tag),
            r@.len() == self.terms_seq().filter(|t: Term| t.tagged(*tag)).len(),
            forall|k: int| 0 <= k < r@.len() ==> *r@[k] == self.terms_seq().filter(|t: Term| t.tagged(*tag))[k],
    {
        let mut res: Vec<&'a Term> = Vec::new();
        let mut i: usize = 0;
        while i < self.terms.len()
            invariant
                i <= self.terms@.len(),
                res@.len() == self.terms@.subrange(0, i as int).filter(|t: Term| t.tagged(*tag)).len(),
                forall|k: int| 0 <= k < res@.len() ==> *res@[k] == self.terms@.subrange(0, i as int).filter(|t: Term| t.tagged(*tag))[k],
            decreases self.terms@.len() - i,
        {
            proof {
                let pre = self.terms@.subrange(0, i as int);
                let post = self.terms@.subrange(0, (i + 1) as int);
                assert(post.drop_last() =~= pre);
                reveal_with_fuel(Seq::<_>::filter, 1);
            }
            if self.terms[i].has_tag(*tag) {
                res.push(&self.terms[i]);
            }
            i = i + 1;
        }
        proof {
            assert(self.terms@.subrange(0, self.terms@.len() as int) =~= self.terms@);
            self.terms@.filter_lemma(|t: Term| t.tagged(*tag));
            assert forall|k: int| 0 <= k < res@.len() implies (#[trigger] res@[k]).tagged(*tag) by {
                assert(self.terms@.filter(|t: Term| t.tagged(*tag)).contains(*res@[k]));
            }
            lemma_filter_len(self.terms@, |t: Term| t.tagged(*tag));
        }
        res
    }

    // Filters
    /// Returns whether a term exists at `index` and `filter` accepts it.
    pub fn has(&self, index: usize, filter: impl Fn(&Term) -> bool) -> (r: bool)
        requires
            forall|t: &Term| call_requires(filter, (t,)),
        ensures
            index >= self.terms_seq().len() ==> !r,
            index < self.terms_seq().len() ==> call_ensures(
                filter,
                (&self.terms_seq()[index as int],),
                r,
            ),
    {
        if let Some(t) = self.get(index) {
            filter(t)
        } else {
            false
        }
    }

    /// Returns whether the derivation has all of `tags`.
    pub fn all(&self, tags: &[Tag]) -> (r: bool)
        ensures
            r == forall|k: int| 0 <= k < tags@.len() ==> self.tag_set().contains(#[trigger] tags@[k]),
    {
        let mut i: usize = 0;
        while i < tags.len()
            invariant
                i <= tags@.len(),
                forall|k: int| 0 <= k < i ==> self.tags@.contains(#[trigger] tags@[k]),
            decreases tags@.len() - i,
        {
            if !self.tags.contains(tags[i]) {
                return false;
            }
            i = i + 1;
        }
        true
    }

    /// Returns whether the derivation has any of `tags`.
    pub fn any(&self, tags: &[Tag]) -> (r: bool)
        ensures
            r == exists|k: int| 0 <= k < tags@.len() && self.tag_set().contains(#[trigger] tags@[k]),
    {
        let mut i: usize = 0;
        while i < tags.len()
            invariant
                i <= tags@.len(),
                forall|k: int| 0 <= k < i ==> !self.tags@.contains(#[trigger] tags@[k]),
            decreases tags@.len() - i,
        {
            if self.tags.contains(tags[i]) {
                return true;
            }
            i = i + 1;
        }
        false
    }

    /// Returns whether the derivation has `tag`.
    pub fn has_tag(&self, tag: Tag) -> (r: bool)
        ensures
            r == self.tag_set().contains(tag),
    {
        self.tags.contains(tag)
    }

    // Basic mutators
    /// Adds `t` to the tags of the derivation.
    pub fn add_tag(&mut self, t: Tag)
        ensures
            final(self).tag_set() == old(self).tag_set().insert(t),
            Self::same_but_tags(*old(self), *final(self)),
    {
        self.tags.insert(t);
    }

    /// Adds all of `tags` to the tags of the derivation.
    pub fn add_tags(&mut self, tags: &[Tag])
        ensures
            final(self).tag_set() == old(self).tag_set().union(tags@.to_set()),
            Self::same_but_tags(*old(self), *final(self)),
    {
        let mut i: usize = 0;
        while i < tags.len()
            invariant
                i <= tags@.len(),
                self.tags@ == old(self).tags@.union(tags@.subrange(0, i as int).to_set()),
                self.terms == old(self).terms,
                self.history == old(self).history,
                self.config == old(self).config,
                self.rule_decisions == old(self).rule_decisions,
            decreases tags@.len() - i,
        {
            self.tags.insert(tags[i]);
            proof {
                let pre = tags@.subrange(0, i as int);
                let post = tags@.subrange(0, (i + 1) as int);
                assert forall|d: Tag| #[trigger] post.contains(d) <==> (pre.contains(d) || d == tags@[i as int]) by {
                    if pre.contains(d) {
                        let k = choose|k: int| 0 <= k < pre.len() && pre[k] == d;
                        assert(post[k] == d);
                    }
                    if d == tags@[i as int] {
                        assert(post[i as int] == d);
                    }
                    if post.contains(d) {
                        let k = choose|k: int| 0 <= k < post.len() && post[k] == d;
                        if k < i {
                            assert(pre[k] == d);
                        }
                    }
                }
                assert(self.tags@ =~= old(self).tags@.union(post.to_set()));
            }
            i = i + 1;
        }
        assert(tags@.subrange(0, tags@.len() as int) =~= tags@);
    }

    /// Applies `operator` to the term at `index`, if there is one.
    pub fn set(&mut self, index: usize, operator: impl Fn(&mut Term))
        requires
            forall|t: &mut Term| call_requires(operator, (t,)),
        ensures
            index >= old(self).terms_seq().len() ==> final(self).terms_seq() == old(self).terms_seq(),
            index < old(self).terms_seq().len() ==> exists|t: &mut Term|
                *t == old(self).terms_seq()[index as int] && call_ensures(operator, (t,), ())
                    && final(self).terms_seq() == old(self).terms_seq().update(index as int, *final(t)),
            Self::same_but_terms(*old(self), *final(self)),
    {
        if index < self.terms.len() {
            operator(&mut self.terms[index]);
        }
    }

    /// Inserts `t` at index `i`.
    pub fn insert_before(&mut self, i: usize, t: Term)
        requires
            i <= old(self).terms_seq().len(),
        ensures
            final(self).terms_seq() == old(self).terms_seq().insert(i as int, t),
            Self::same_but_terms(*old(self), *final(self)),
    {
        self.terms.insert(i, t);
    }

    /// Inserts `t` right after index `i`.
    pub fn insert_after(&mut self, i: usize, t: Term)
        requires
            i < old(self).terms_seq().len(),
        ensures
            final(self).terms_seq() == old(self).terms_seq().insert(i + 1, t),
            Self::same_but_terms(*old(self), *final(self)),
    {
        let n = self.terms.len();
        assert(i < n);
        self.terms.insert(i + 1, t);
    }

    /// Adds the given term to the end of the term list.
    pub fn push(&mut self, t: Term)
        ensures
            final(self).terms_seq() == old(self).terms_seq().push(t),
            Self::same_but_terms(*old(self), *final(self)),
    {
        self.terms.push(t);
    }

    // Rule application
    /// Applies the given operator and records the step.
    pub fn op(&mut self, code: Rule, operator: impl Fn(&mut Prakriya)) -> (r: bool)
        requires
            forall|p: &mut Prakriya| call_requires(operator, (p,)),
        ensures
            r,
            exists|q: &mut Prakriya|
                *q == *old(self) && call_ensures(operator, (q,), ()) && Self::stepped(
                    *final(q),
                    *final(self),
                    code,
                ),
    {
        operator(self);
        self.step(code);
        true
    }

    /// Applies the given operator to the given term and records the step, if the term exists.
    pub fn op_term(&mut self, code: Rule, index: usize, operator: impl Fn(&mut Term)) -> (r: bool)
        requires
            forall|t: &mut Term| call_requires(operator, (t,)),
        ensures
            r == (index < old(self).terms_seq().len()),
            !r ==> *final(self) == *old(self),
            r ==> exists|t: &mut Term|
                *t == old(self).terms_seq()[index as int] && call_ensures(operator, (t,), ())
                    && final(self).terms_seq() == old(self).terms_seq().update(
                    index as int,
                    *final(t),
                ),
            r ==> Self::logged(
                old(self).steps(),
                final(self).steps(),
                old(self).cfg().log_steps,
                code,
                final(self).terms_seq(),
            ),
            final(self).tag_set() == old(self).tag_set(),
            final(self).cfg() == old(self).cfg(),
            final(self).decisions() == old(self).decisions(),
    {
        if index < self.terms.len() {
            operator(&mut self.terms[index]);
            self.step(code);
            true
        } else {
            false
        }
    }

    /// Applies the given operator if the rule choices allow the optional rule `code`.
    ///
    /// Returns whether the operation was applied. Callers need this for complex conditions
    /// (e.g. 6.4.116 & 117; "if this rule was not applied, ...").
    pub fn op_optional(&mut self, code: Rule, operator: impl Fn(&mut Prakriya)) -> (r: bool)
        requires
            forall|p: &mut Prakriya| call_requires(operator, (p,)),
        ensures
            r == allows(old(self).cfg().rule_choices@, code@),
            r ==> exists|q: &mut Prakriya|
                (*q).decisions() == old(self).decisions().push(RuleChoice::Accept(code))
                    && Self::same_but_decisions(*old(self), *q) && call_ensures(operator, (q,), ())
                    && Self::stepped(*final(q), *final(self), code),
            !r ==> final(self).decisions() == old(self).decisions().push(RuleChoice::Decline(code))
                && Self::same_but_decisions(*old(self), *final(self)),
    {
        if self.is_allowed(code) {
            operator(self);
            self.step(code);
            true
        } else {
            self.decline(code);
            false
        }
    }

    /// Applies the given rule if `filter` accepts the derivation.
    pub fn rule(
        &mut self,
        code: Rule,
        filter: impl Fn(&Prakriya) -> bool,
        operator: impl Fn(&mut Prakriya),
    ) -> (r: bool)
        requires
            forall|p: &Prakriya| call_requires(filter, (p,)),
            forall|p: &mut Prakriya| call_requires(operator, (p,)),
        ensures
            call_ensures(filter, (old(self),), r),
            !r ==> *final(self) == *old(self),
            r ==> exists|q: &mut Prakriya|
                *q == *old(self) && call_ensures(operator, (q,), ()) && Self::stepped(
                    *final(q),
                    *final(self),
                    code,
                ),
    {
        if filter(self) {
            self.op(code, operator)
        } else {
            false
        }
    }

    /// Applies the given rule optionally, if `filter` accepts the derivation.
    pub fn optional(
        &mut self,
        code: Rule,
        filter: impl Fn(&Prakriya) -> bool,
        operator: impl Fn(&mut Prakriya),
    ) -> (r: bool)
        requires
            forall|p: &Prakriya| call_requires(filter, (p,)),
            forall|p: &mut Prakriya| call_requires(operator, (p,)),
        ensures
            exists|b: bool|
                call_ensures(filter, (old(self),), b) && if !b {
                    !r && *final(self) == *old(self)
                } else {
                    r == allows(old(self).cfg().rule_choices@, code@)
                },
            !r ==> *final(self) == *old(self) || (final(self).decisions() == old(
                self,
            ).decisions().push(RuleChoice::Decline(code)) && Self::same_but_decisions(
                *old(self),
                *final(self),
            )),
            r ==> exists|q: &mut Prakriya|
                (*q).decisions() == old(self).decisions().push(RuleChoice::Accept(code))
                    && Self::same_but_decisions(*old(self), *q) && call_ensures(operator, (q,), ())
                    && Self::stepped(*final(q), *final(self), code),
    {
        if filter(self) {
            self.op_optional(code, operator)
        } else {
            false
        }
    }

    /// Records a step for `rule`, if the derivation records steps.
    pub fn step(&mut self, rule: Rule)
        ensures
            Self::stepped(*old(self), *final(self), rule),
    {
        if self.config.log_steps {
            let state = self.joined_text();
            self.history.push(Step { rule, state });
            assert(self.history@.subrange(0, old(self).history@.len() as int) =~= old(
                self,
            ).history@);
        }
    }

    fn joined_text(&self) -> (r: String)
        ensures
            r@ == joined_state(self.terms_seq()),
    {
        let mut state = String::new();
        let mut i: usize = 0;
        proof {
            reveal_strlit(" + ");
        }
        while i < self.terms.len()
            invariant
                i <= self.terms@.len(),
                state@ == joined_state(self.terms@.subrange(0, i as int)),
                " + "@ == seq![' ', '+', ' '],
            decreases self.terms@.len() - i,
        {
            assert(self.terms@.subrange(0, (i + 1) as int).drop_last() =~= self.terms@.subrange(
                0,
                i as int,
            ));
            if state.as_str().unicode_len() == 0 {
                state = state.concat(self.terms[i].text.as_str());
            } else {
                state = state.concat(" + ");
                state = state.concat(self.terms[i].text.as_str());
            }
            i = i + 1;
        }
        assert(self.terms@.subrange(0, self.terms@.len() as int) =~= self.terms@);
        state
    }

    /// Records a debugging message as a step.
    pub fn debug(&mut self, text: String)
        ensures
            final(self).steps().len() == old(self).steps().len() + 1,
            final(self).steps().subrange(0, old(self).steps().len() as int) == old(self).steps(),
            final(self).steps().last().rule@ == "debug"@,
            final(self).steps().last().state == text,
            final(self).terms_seq() == old(self).terms_seq(),
            final(self).tag_set() == old(self).tag_set(),
            final(self).cfg() == old(self).cfg(),
            final(self).decisions() == old(self).decisions(),
    {
        self.history.push(Step { rule: "debug", state: text });
        assert(self.history@.subrange(0, old(self).history@.len() as int) =~= old(
            self,
        ).history@);
    }

    // Optional rules
    /// Returns whether the rule choices allow the optional rule `r`, and records the decision
    /// when they do.
    pub fn is_allowed(&mut self, r: Rule) -> (b: bool)
        ensures
            b == allows(old(self).cfg().rule_choices@, r@),
            b ==> final(self).decisions() == old(self).decisions().push(RuleChoice::Accept(r)),
            !b ==> final(self).decisions() == old(self).decisions(),
            Self::same_but_decisions(*old(self), *final(self)),
    {
        let mut i: usize = 0;
        while i < self.config.rule_choices.len()
            invariant
                i <= self.config.rule_choices@.len(),
                *self == *old(self),
                first_choice(self.config.rule_choices@, r@, 0) == first_choice(
                    self.config.rule_choices@,
                    r@,
                    i as int,
                ),
            decreases self.config.rule_choices@.len() - i,
        {
            let option = self.config.rule_choices[i];
            match option {
                RuleChoice::Accept(code) => {
                    if strings::str_eq(r, code) {
                        self.accept(r);
                        return true;
                    }
                },
                RuleChoice::Decline(code) => {
                    if strings::str_eq(r, code) {
                        return false;
                    }
                },
            }
            i = i + 1;
        }
        // If not in options, allow this rule by default.
        self.accept(r);
        true
    }

    /// Records that the optional rule `rule` was used.
    pub fn accept(&mut self, rule: Rule)
        ensures
            final(self).decisions() == old(self).decisions().push(RuleChoice::Accept(rule)),
            Self::same_but_decisions(*old(self), *final(self)),
    {
        self.rule_decisions.push(RuleChoice::Accept(rule));
    }

    /// Records that the optional rule `rule` was declined.
    pub fn decline(&mut self, rule: Rule)
        ensures
            final(self).decisions() == old(self).decisions().push(RuleChoice::Decline(rule)),
            Self::same_but_decisions(*old(self), *final(self)),
    {
        self.rule_decisions.push(RuleChoice::Decline(rule));
    }

    // Final output
    /// Returns the text of the derivation: the texts of its terms, concatenated.
    pub fn text(&self) -> (r: CompactString)
        ensures
            compact_chars(r) == concat_texts(self.terms_seq()),
    {
        proof {
            reveal_strlit("");
        }
        let mut ret = compact_from("");
        let mut i: usize = 0;
        assert(self.terms@.subrange(0, 0) =~= Seq::<Term>::empty());
        while i < self.terms.len()
            invariant
                i <= self.terms@.len(),
                compact_chars(ret) == concat_texts(self.terms@.subrange(0, i as int)),
            decreases self.terms@.len() - i,
        {
            assert(self.terms@.subrange(0, (i + 1) as int).drop_last() =~= self.terms@.subrange(
                0,
                i as int,
            ));
            compact_push_str(&mut ret, self.terms[i].text.as_str());
            i = i + 1;
        }
        assert(self.terms@.subrange(0, self.terms@.len() as int) =~= self.terms@);
        ret
    }
}

/// The paths that `PrakriyaStack` adds after a derivation that made the choices `choices`,
/// of which the first `offset` were fixed in advance: for each later choice, the choices up
/// to it with that choice made the other way.
pub open spec fn alternatives(choices: Seq<RuleChoice>, offset: int) -> Seq<Seq<RuleChoice>> {
    Seq::new(
        if choices.len() > offset {
            (choices.len() - offset) as nat
        } else {
            0
        },
        |k: int| choices.subrange(0, offset + k + 1).update(offset + k, flip(choices[offset + k])),
    )
}

/// Whether `p` is a fresh prakriya: no terms, tags, steps or decisions.
pub open spec fn is_fresh(p: Prakriya) -> bool {
    p.terms_seq().len() == 0 && p.tag_set() == Set::<Tag>::empty() && p.steps().len() == 0
        && p.decisions().len() == 0
}

/// Whether round `k` of an exploration follows from round `k - 1`: its path was the last one
/// pending, and its pending paths are those before less that one, with the alternatives of the
/// choices its derivation made beyond its path.
pub open spec fn explored_round(
    ds: Seq<Prakriya>,
    paths: Seq<Seq<RuleChoice>>,
    stacks: Seq<Seq<Seq<RuleChoice>>>,
    k: int,
) -> bool {
    &&& stacks[k - 1].len() > 0
    &&& paths[k] == stacks[k - 1].last()
    &&& stacks[k] == stacks[k - 1].drop_last() + alternatives(ds[k].decisions(), paths[k].len() as int)
}

/// Whether `paths` and `stacks` follow the exploration of `explored` for the derivations `ds`
/// so far, with `pending` the paths still pending.
pub open spec fn explored_so_far(
    start: Seq<Seq<RuleChoice>>,
    ds: Seq<Prakriya>,
    paths: Seq<Seq<RuleChoice>>,
    stacks: Seq<Seq<Seq<RuleChoice>>>,
    pending: Seq<Seq<RuleChoice>>,
) -> bool {
    &&& ds.len() >= 1
    &&& paths.len() == ds.len()
    &&& stacks.len() == ds.len()
    &&& paths[0] == Seq::<RuleChoice>::empty()
    &&& stacks[0] == start + alternatives(ds[0].decisions(), 0)
    &&& forall|k: int| 1 <= k < ds.len() ==> #[trigger] explored_round(ds, paths, stacks, k)
    &&& stacks.last() == pending
}

/// Whether the derivations `ds` are those of a depth-first exploration of choice paths that
/// starts with the pending paths `start`: `paths[k]` is the path that `ds[k]` was derived
/// with, and `stacks[k]` the pending paths after it. The first path is empty; every later one is
/// the last pending path, taken off the stack; each derivation puts on the stack the paths that
/// flip one of the choices it made beyond its path (`alternatives`); at the end none is pending.
pub open spec fn explored(
    start: Seq<Seq<RuleChoice>>,
    ds: Seq<Prakriya>,
    paths: Seq<Seq<RuleChoice>>,
    stacks: Seq<Seq<Seq<RuleChoice>>>,
) -> bool {
    &&& explored_so_far(start, ds, paths, stacks, stacks.last())
    &&& stacks.last().len() == 0
}

/// One more round of the exploration: the last pending path is taken off the stack, derived,
/// and the alternatives of the derivation's choices beyond it are put on the stack.
proof fn lemma_explored_step(
    start: Seq<Seq<RuleChoice>>,
    ds: Seq<Prakriya>,
    paths: Seq<Seq<RuleChoice>>,
    stacks: Seq<Seq<Seq<RuleChoice>>>,
    pending: Seq<Seq<RuleChoice>>,
    p: Prakriya,
    path: Seq<RuleChoice>,
    next: Seq<Seq<RuleChoice>>,
)
    requires
        explored_so_far(start, ds, paths, stacks, pending),
        pending.len() > 0,
        path == pending.last(),
        next == pending.drop_last() + alternatives(p.decisions(), path.len() as int),
    ensures
        explored_so_far(start, ds.push(p), paths.push(path), stacks.push(next), next),
{
    let ds2 = ds.push(p);
    let paths2 = paths.push(path);
    let stacks2 = stacks.push(next);
    assert forall|k: int| 1 <= k < ds2.len() implies #[trigger] explored_round(ds2, paths2, stacks2, k) by {
        if k < ds.len() {
            assert(explored_round(ds, paths, stacks, k));
            assert(paths2[k] == paths[k]);
            assert(stacks2[k] == stacks[k]);
            assert(stacks2[k - 1] == stacks[k - 1]);
            assert(ds2[k] == ds[k]);
        } else {
            assert(stacks2[k - 1] == pending);
            assert(paths2[k] == path);
            assert(stacks2[k] == next);
            assert(ds2[k] == p);
        }
    }
    assert(stacks2[0] == stacks[0]);
    assert(ds2[0] == ds[0]);
    assert(paths2[0] == paths[0]);
    assert(stacks2.last() == next);
}

/// Explores all optional derivations for some input.
///
/// Many of the rules in the Ashtadhyayi are optional, and by accepting or declining these optional
/// rules, we create different final results. `PrakriyaStack` manages the work required in finding
/// and exploring the various combinations of optional rules.
pub struct PrakriyaStack {
    /// Completed prakriyas.
    prakriyas: Vec<Prakriya>,
    /// Combinations of optional rules that we have yet to try.
    paths: Vec<Vec<RuleChoice>>,
}

impl Default for PrakriyaStack {
    fn default() -> (r: Self)
        ensures
            r.done().len() == 0,
            r.pending().len() == 0,
    {
        PrakriyaStack { prakriyas: Vec::new(), paths: Vec::new() }
    }
}

fn copy_choices(v: &[RuleChoice]) -> (r: Vec<RuleChoice>)
    ensures
        r@ == v@,
{
    let mut r: Vec<RuleChoice> = Vec::new();
    let mut i: usize = 0;
    while i < v.len()
        invariant
            i <= v@.len(),
            r@ == v@.subrange(0, i as int),
        decreases v@.len() - i,
    {
        r.push(v[i]);
        i = i + 1;
    }
    assert(v@.subrange(0, v@.len() as int) =~= v@);
    r
}

/// Returns the first `i + 1` choices of `choices`, with the last of them made the other way.
fn flipped_prefix(choices: &Vec<RuleChoice>, i: usize) -> (r: Vec<RuleChoice>)
    requires
        i < choices@.len(),
    ensures
        r@ == choices@.subrange(0, i + 1).update(i as int, flip(choices@[i as int])),
{
    let mut path: Vec<RuleChoice> = Vec::new();
    let mut k: usize = 0;
    while k < i
        invariant
            k <= i < choices@.len(),
            path@ == choices@.subrange(0, k as int),
        decreases i - k,
    {
        path.push(choices[k]);
        k = k + 1;
    }
    let last = match choices[i] {
        RuleChoice::Accept(code) => RuleChoice::Decline(code),
        RuleChoice::Decline(code) => RuleChoice::Accept(code),
    };
    path.push(last);
    assert(path@ =~= choices@.subrange(0, i + 1).update(i as int, flip(choices@[i as int])));
    path
}

impl PrakriyaStack {
    /// The completed prakriyas, in the order in which they were found.
    pub closed spec fn done(&self) -> Seq<Prakriya> {
        self.prakriyas@
    }

    /// The paths of choices that remain to be tried; the last is tried first.
    pub closed spec fn pending(&self) -> Seq<Seq<RuleChoice>> {
        Seq::new(self.paths@.len(), |i: int| self.paths@[i]@)
    }

    /// Creates an empty `PrakriyaStack`.
    pub fn new() -> (r: Self)
        ensures
            r.done().len() == 0,
            r.pending().len() == 0,
    {
        Self::default()
    }

    fn new_prakriya(rule_choices: Vec<RuleChoice>, log_steps: bool) -> (p: Prakriya)
        ensures
            is_fresh(p),
            p.cfg().rule_choices@ == rule_choices@,
            p.cfg().log_steps == log_steps,
    {
        Prakriya::with_config(Config { rule_choices, log_steps })
    }

    /// Finds all variants of the given derivation function.
    ///
    /// `derive` should accept an empty `Prakriya` and mutate it in-place. The first derivation
    /// makes no choices in advance; every later one follows a path of choices that an earlier one
    /// left open, until none is left.
    pub fn find_all(&mut self, derive: impl Fn(&mut Prakriya), log_steps: bool)
        requires
            forall|p: &mut Prakriya| call_requires(derive, (p,)),
        ensures
            final(self).done().len() > old(self).done().len(),
            final(self).done().subrange(0, old(self).done().len() as int) == old(self).done(),
            exists|q: &mut Prakriya|
                is_fresh(*q) && q.cfg().rule_choices@.len() == 0 && q.cfg().log_steps == log_steps
                    && call_ensures(derive, (q,), ()) && *final(q) == final(self).done()[old(
                    self,
                ).done().len() as int],
            forall|k: int|
                old(self).done().len() <= k < final(self).done().len() ==> exists|q: &mut Prakriya|
                    is_fresh(*q) && q.cfg().log_steps == log_steps && call_ensures(derive, (q,), ())
                        && *final(q) == #[trigger] final(self).done()[k],
            final(self).pending().len() == 0,
            exists|paths: Seq<Seq<RuleChoice>>, stacks: Seq<Seq<Seq<RuleChoice>>>|
                {
                    &&& #[trigger] explored(
                        old(self).pending(),
                        final(self).done().subrange(
                            old(self).done().len() as int,
                            final(self).done().len() as int,
                        ),
                        paths,
                        stacks,
                    )
                    &&& forall|k: int|
                        0 <= k < paths.len() ==> exists|q: &mut Prakriya|
                            is_fresh(*q) && q.cfg().rule_choices@ == #[trigger] paths[k]
                                && q.cfg().log_steps == log_steps && call_ensures(derive, (q,), ())
                                && *final(q) == final(self).done()[old(self).done().len() + k]
                },
    {
        let mut p_init = Self::new_prakriya(Vec::new(), log_steps);
        let ghost q0 = p_init;
        derive(&mut p_init);
        let ghost n0 = old(self).prakriyas@.len();
        let ghost start = old(self).pending();
        self.add_prakriya(p_init, &[]);
        let ghost mut paths: Seq<Seq<RuleChoice>> = seq![Seq::<RuleChoice>::empty()];
        let ghost mut stacks: Seq<Seq<Seq<RuleChoice>>> = seq![self.pending()];
        proof {
            assert(self.prakriyas@[n0 as int] == p_init);
            assert(self.prakriyas@.subrange(n0 as int, self.prakriyas@.len() as int) =~= seq![p_init]);
        }
        let mut budget: usize = usize::MAX;
        loop
            invariant
                forall|p: &mut Prakriya| call_requires(derive, (p,)),
                self.prakriyas@.len() == n0 + 1 + (usize::MAX - budget),
                self.prakriyas@.subrange(0, n0 as int) == old(self).prakriyas@,
                explored_so_far(
                    start,
                    self.prakriyas@.subrange(n0 as int, self.prakriyas@.len() as int),
                    paths,
                    stacks,
                    self.pending(),
                ),
                forall|k: int|
                    0 <= k < paths.len() ==> exists|q: &mut Prakriya|
                        is_fresh(*q) && q.cfg().rule_choices@ == #[trigger] paths[k]
                            && q.cfg().log_steps == log_steps && call_ensures(derive, (q,), ())
                            && *final(q) == self.prakriyas@[n0 + k],
                exists|q: &mut Prakriya|
                    is_fresh(*q) && q.cfg().rule_choices@.len() == 0 && q.cfg().log_steps
                        == log_steps && call_ensures(derive, (q,), ()) && *final(q)
                        == self.prakriyas@[n0 as int],
                forall|k: int|
                    n0 <= k < self.prakriyas@.len() ==> exists|q: &mut Prakriya|
                        is_fresh(*q) && q.cfg().log_steps == log_steps && call_ensures(
                            derive,
                            (q,),
                            (),
                        ) && *final(q) == #[trigger] self.prakriyas@[k],
            ensures
                self.paths@.len() == 0,
                self.prakriyas@.len() >= n0 + 1,
                explored_so_far(
                    start,
                    self.prakriyas@.subrange(n0 as int, self.prakriyas@.len() as int),
                    paths,
                    stacks,
                    self.pending(),
                ),
                forall|k: int|
                    0 <= k < paths.len() ==> exists|q: &mut Prakriya|
                        is_fresh(*q) && q.cfg().rule_choices@ == #[trigger] paths[k]
                            && q.cfg().log_steps == log_steps && call_ensures(derive, (q,), ())
                            && *final(q) == self.prakriyas@[n0 + k],
                self.prakriyas@.subrange(0, n0 as int) == old(self).prakriyas@,
                exists|q: &mut Prakriya|
                    is_fresh(*q) && q.cfg().rule_choices@.len() == 0 && q.cfg().log_steps
                        == log_steps && call_ensures(derive, (q,), ()) && *final(q)
                        == self.prakriyas@[n0 as int],
                forall|k: int|
                    n0 <= k < self.prakriyas@.len() ==> exists|q: &mut Prakriya|
                        is_fresh(*q) && q.cfg().log_steps == log_steps && call_ensures(
                            derive,
                            (q,),
                            (),
                        ) && *final(q) == #[trigger] self.prakriyas@[k],
            decreases budget,
        {
            if budget == 0 {
                // Every round adds a prakriya, so the rounds cannot outnumber what a `Vec` holds.
                let n = self.prakriyas.len();
                assert(false);
                break;
            }
            let ghost pending_before = self.pending();
            match self.pop_path() {
                Some(path) => {
                    let mut p = Self::new_prakriya(copy_choices(path.as_slice()), log_steps);
                    let ghost q = p;
                    derive(&mut p);
                    let ghost before = self.prakriyas@;
                    let ghost paths_before = paths;
                    let ghost stacks_before = stacks;
                    self.add_prakriya(p, path.as_slice());
                    proof {
                        paths = paths.push(path@);
                        stacks = stacks.push(self.pending());
                        assert(self.prakriyas@[self.prakriyas@.len() - 1] == p);
                        let ds0 = before.subrange(n0 as int, before.len() as int);
                        let ds = self.prakriyas@.subrange(n0 as int, self.prakriyas@.len() as int);
                        assert(ds =~= ds0.push(p));
                        lemma_explored_step(
                            start,
                            ds0,
                            paths_before,
                            stacks_before,
                            pending_before,
                            p,
                            path@,
                            self.pending(),
                        );
                        assert forall|k: int| 0 <= k < paths.len() implies exists|q: &mut Prakriya|
                            is_fresh(*q) && q.cfg().rule_choices@ == #[trigger] paths[k]
                                && q.cfg().log_steps == log_steps && call_ensures(derive, (q,), ())
                                && *final(q) == self.prakriyas@[n0 + k] by {
                            if k < paths.len() - 1 {
                                assert(paths[k] == paths_before[k]);
                                assert(self.prakriyas@[n0 + k] == before[n0 + k]);
                            }
                        }
                        assert(self.prakriyas@[n0 as int] == before[n0 as int]);
                    }
                    assert forall|k: int| n0 <= k < self.prakriyas@.len() implies exists|
                        q: &mut Prakriya,
                    |
                        is_fresh(*q) && q.cfg().log_steps == log_steps && call_ensures(
                            derive,
                            (q,),
                            (),
                        ) && *final(q) == #[trigger] self.prakriyas@[k] by {
                        if k < before.len() {
                            assert(self.prakriyas@[k] == before[k]);
                        }
                    }
                    assert(self.prakriyas@.subrange(0, n0 as int) =~= before.subrange(0, n0 as int));
                },
                None => {
                    break;
                },
            }
            budget = budget - 1;
        }
        assert(self.prakriyas@.subrange(0, n0 as int) == old(self).done());
        proof {
            let ds = self.prakriyas@.subrange(n0 as int, self.prakriyas@.len() as int);
            assert(self.pending().len() == 0);
            assert(explored_so_far(start, ds, paths, stacks, self.pending()));
            assert(explored(start, ds, paths, stacks));
            assert(n0 == old(self).done().len());
            assert(ds == self.done().subrange(old(self).done().len() as int, self.done().len() as int));
        }
    }

    /// Adds a prakriya to the result set and adds new paths to the stack.
    ///
    /// We find new paths as follows. Suppose our initial prakriya followed the following path:
    ///
    /// > Accept(A), Accept(B), Accept(C)
    ///
    /// We then add one candidate path for each alternate choice we could have made:
    ///
    /// > Decline(A)
    /// > Accept(A), Decline(B)
    /// > Accept(A), Accept(B), Decline(C)
    ///
    /// Suppose we then try `Decline(A)` and make the following choices:
    ///
    /// > Decline(A), Accept(B), Accept(D)
    ///
    /// After this, adding an `Accept(A) path to the stack would be a mistake, as it would cause an
    /// infinite loop. Instead, we freeze our initial decision to use `Decline(A)` and add only the
    /// following paths:
    ///
    /// > Decline(A), Decline(B)
    /// > Decline(A), Accept(B), Decline(D)
    fn add_prakriya(&mut self, p: Prakriya, initial_choices: &[RuleChoice])
        ensures
            final(self).done() == old(self).done().push(p),
            final(self).pending() == old(self).pending() + alternatives(
                p.decisions(),
                initial_choices@.len() as int,
            ),
    {
        let choices = p.rule_choices();
        let offset = initial_choices.len();
        let ghost alts = alternatives(choices@, offset as int);
        let mut i: usize = offset;
        while i < choices.len()
            invariant
                offset <= i,
                i == offset || i <= choices@.len(),
                choices@ == p.decisions(),
                alts == alternatives(choices@, offset as int),
                self.prakriyas == old(self).prakriyas,
                Seq::new(self.paths@.len(), |j: int| self.paths@[j]@) == old(self).pending()
                    + alts.subrange(0, if i > offset { (i - offset) as int } else { 0 }),
            decreases choices@.len() - i,
        {
            let path = flipped_prefix(choices, i);
            assert(alts.len() == choices@.len() - offset);
            assert(alts[(i - offset) as int] == path@);
            let ghost before = Seq::new(self.paths@.len(), |j: int| self.paths@[j]@);
            self.paths.push(path);
            assert(Seq::new(self.paths@.len(), |j: int| self.paths@[j]@) =~= before.push(path@));
            assert(alts.subrange(0, (i + 1 - offset) as int) =~= alts.subrange(0, (i - offset) as int).push(alts[(i - offset) as int]));
            i = i + 1;
        }
        assert(alts.subrange(0, if i > offset { (i - offset) as int } else { 0 }) =~= alts);
        self.prakriyas.push(p);
    }

    /// Pops an unexplored choice path from the stack.
    fn pop_path(&mut self) -> (r: Option<Vec<RuleChoice>>)
        ensures
            old(self).pending().len() == 0 ==> r is None && final(self).pending() == old(self).pending()
                && final(self).done() == old(self).done(),
            old(self).pending().len() > 0 ==> (r matches Some(path) && path@ == old(
                self,
            ).pending().last() && final(self).pending() == old(self).pending().drop_last()
                && final(self).done() == old(self).done()),
    {
        let r = self.paths.pop();
        proof {
            if old(self).paths@.len() > 0 {
                assert(Seq::new(self.paths@.len(), |j: int| self.paths@[j]@) =~= old(
                    self,
                ).pending().drop_last());
            } else {
                assert(Seq::new(self.paths@.len(), |j: int| self.paths@[j]@) =~= old(
                    self,
                ).pending());
            }
        }
        r
    }

    /// Returns all of the prakriyas this stack has found. This consumes the stack.
    pub fn prakriyas(self) -> (r: Vec<Prakriya>)
        ensures
            r@ == self.done(),
    {
        self.prakriyas
    }
}

/// Rewriting twice is rewriting.
pub proof fn lemma_rewrote_trans(a: Prakriya, b: Prakriya, c: Prakriya)
    requires
        Prakriya::rewrote(a, b),
        Prakriya::rewrote(b, c),
    ensures
        Prakriya::rewrote(a, c),
{
    assert(c.steps().subrange(0, a.steps().len() as int) =~= c.steps().subrange(
        0,
        b.steps().len() as int,
    ).subrange(0, a.steps().len() as int));
}

/// Leaving a derivation as it is rewrites it.
pub proof fn lemma_rewrote_refl(a: Prakriya)
    ensures
        Prakriya::rewrote(a, a),
{
    assert(a.steps().subrange(0, a.steps().len() as int) =~= a.steps());
}

/// Revising a derivation twice revises it.
pub proof fn lemma_revised_trans(a: Prakriya, b: Prakriya, c: Prakriya)
    requires
        Prakriya::revised(a, b),
        Prakriya::revised(b, c),
    ensures
        Prakriya::revised(a, c),
{
    assert(c.steps().subrange(0, a.steps().len() as int) =~= c.steps().subrange(
        0,
        b.steps().len() as int,
    ).subrange(0, a.steps().len() as int));
    assert(c.decisions().subrange(0, a.decisions().len() as int) =~= c.decisions().subrange(
        0,
        b.decisions().len() as int,
    ).subrange(0, a.decisions().len() as int));
}

/// A rewrite revises the derivation.
pub proof fn lemma_rewrote_revised(a: Prakriya, b: Prakriya)
    requires
        Prakriya::rewrote(a, b),
    ensures
        Prakriya::revised(a, b),
{
    assert(b.decisions().subrange(0, a.decisions().len() as int) =~= a.decisions());
}

proof fn lemma_filter_len(s: Seq<Term>, pred: spec_fn(Term) -> bool)
    ensures
        s.filter(pred).len() <= s.len(),
    decreases s.len(),
{
    reveal_with_fuel(Seq::<_>::filter, 1);
    if s.len() > 0 {
        lemma_filter_len(s.drop_last(), pred);
    }
}

} // verus!
