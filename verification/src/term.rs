//! `Term`, a string with the metadata that a derivation needs, and `TermView`, a run of terms
//! that acts as one unit.
use crate::constants::{Tag, TagSet};
use crate::sounds::Pattern;
use crate::strings;
use vstd::prelude::*;

verus! {

/// The first sound of `text`, if any.
pub open spec fn spec_adi(text: Seq<char>) -> Option<char> {
    if text.len() > 0 {
        Some(text[0])
    } else {
        None
    }
}

/// The last sound of `text`, if any.
pub open spec fn spec_antya(text: Seq<char>) -> Option<char> {
    if text.len() > 0 {
        Some(text[text.len() - 1])
    } else {
        None
    }
}

/// The penultimate sound of `text`, if any.
pub open spec fn spec_upadha(text: Seq<char>) -> Option<char> {
    if text.len() > 1 {
        Some(text[text.len() - 2])
    } else {
        None
    }
}

/// Whether `c` is some sound that `pattern` accepts.
pub open spec fn sound_matches<P: Pattern>(c: Option<char>, pattern: P) -> bool {
    c matches Some(x) && pattern.accepts(x)
}

/// Whether `pattern` can test `c`, where `c` is some sound.
pub open spec fn can_test_opt<P: Pattern>(c: Option<char>, pattern: P) -> bool {
    c matches Some(x) ==> pattern.can_test(x)
}

/// Whether some string of `items` has the chars `s`.
pub open spec fn seq_has_str(items: Seq<&str>, s: Seq<char>) -> bool {
    exists|k: int| 0 <= k < items.len() && (#[trigger] items[k])@ == s
}

/// Whether some string of `items` has the chars `s`.
pub open spec fn strings_have(items: Seq<String>, s: Seq<char>) -> bool {
    exists|k: int| 0 <= k < items.len() && (#[trigger] items[k])@ == s
}

/// A string with metadata, the basic unit of a derivation.
#[derive(Clone, Debug)]
pub struct Term {
    /// The term as stated in upadesha, with its it-letters, if it has one.
    pub u: Option<String>,
    /// The current text of the term.
    pub text: String,
    /// The tags of the term.
    pub tags: TagSet,
    /// The dhatu's gana, for a dhatu.
    pub gana: Option<i32>,
    /// The dhatu's number within its gana, for a dhatu.
    pub number: Option<i32>,
    /// The upadeshas that this term had before substitutions.
    pub lakshana: Vec<String>,
}

impl Term {
    /// Whether the upadesha of this term is `s`.
    pub open spec fn u_is(&self, s: Seq<char>) -> bool {
        self.u matches Some(x) && x@ == s
    }

    /// Whether some former upadesha of this term is among `items`.
    pub open spec fn lakshana_among(&self, items: Seq<&str>) -> bool {
        exists|k: int| 0 <= k < self.lakshana@.len() && seq_has_str(items, (#[trigger] self.lakshana@[k])@)
    }

    /// Whether this term carries `tag`.
    pub open spec fn tagged(&self, tag: Tag) -> bool {
        self.tags@.contains(tag)
    }

    /// Creates a term from its upadesha.
    pub fn make_upadesha(s: &str) -> (t: Self)
        ensures
            t.u_is(s@),
            t.text@ == s@,
            t.tags@ == Set::<Tag>::empty(),
            t.gana is None,
            t.number is None,
            t.lakshana@.len() == 0,
    {
        Term {
            u: Some(strings::string_from(s)),
            text: strings::string_from(s),
            tags: TagSet::new(),
            gana: None,
            number: None,
            lakshana: Vec::new(),
        }
    }

    /// Creates a term that has text but no upadesha.
    pub fn make_text(s: &str) -> (t: Self)
        ensures
            t.u is None,
            t.text@ == s@,
            t.tags@ == Set::<Tag>::empty(),
            t.gana is None,
            t.number is None,
            t.lakshana@.len() == 0,
    {
        Term {
            u: None,
            text: strings::string_from(s),
            tags: TagSet::new(),
            gana: None,
            number: None,
            lakshana: Vec::new(),
        }
    }

    /// Creates a dhatu term with its gana and number.
    pub fn make_dhatu(s: &str, gana: i32, number: i32) -> (t: Self)
        ensures
            t.u_is(s@),
            t.text@ == s@,
            t.tags@ == Set::<Tag>::empty(),
            t.gana == Some(gana),
            t.number == Some(number),
            t.lakshana@.len() == 0,
    {
        let mut t = Term::make_upadesha(s);
        t.gana = Some(gana);
        t.number = Some(number);
        t
    }

    /// Creates an agama term.
    pub fn make_agama(s: &str) -> (t: Self)
        ensures
            t.u_is(s@),
            t.text@ == s@,
            t.tags@ == set![Tag::Agama],
            t.gana is None,
            t.number is None,
            t.lakshana@.len() == 0,
    {
        let mut t = Term::make_upadesha(s);
        t.add_tag(Tag::Agama);
        assert(t.tags@ =~= set![Tag::Agama]);
        t
    }

    // Sound selection
    /// Returns the first sound.
    pub fn adi(&self) -> (r: Option<char>)
        ensures
            r == spec_adi(self.text@),
    {
        let n = self.text.as_str().unicode_len();
        if n > 0 {
            Some(self.text.as_str().get_char(0))
        } else {
            None
        }
    }

    /// Returns the last sound.
    pub fn antya(&self) -> (r: Option<char>)
        ensures
            r == spec_antya(self.text@),
    {
        let n = self.text.as_str().unicode_len();
        if n > 0 {
            Some(self.text.as_str().get_char(n - 1))
        } else {
            None
        }
    }

    /// Returns the penultimate sound.
    pub fn upadha(&self) -> (r: Option<char>)
        ensures
            r == spec_upadha(self.text@),
    {
        let n = self.text.as_str().unicode_len();
        if n > 1 {
            Some(self.text.as_str().get_char(n - 2))
        } else {
            None
        }
    }

    /// Returns the sound at index `i`, if any.
    pub fn get(&self, i: usize) -> (r: Option<char>)
        ensures
            r == if i < self.text@.len() {
                Some(self.text@[i as int])
            } else {
                None
            },
    {
        let n = self.text.as_str().unicode_len();
        if i < n {
            Some(self.text.as_str().get_char(i))
        } else {
            None
        }
    }

    // Sound properties
    fn matches_sound_pattern<P: Pattern>(&self, c: Option<char>, pattern: P) -> (r: bool)
        requires
            can_test_opt(c, pattern),
        ensures
            r == sound_matches(c, pattern),
    {
        match c {
            Some(c) => pattern.matches(c),
            None => false,
        }
    }

    /// Returns whether the first sound matches `pattern`.
    pub fn has_adi<P: Pattern>(&self, pattern: P) -> (r: bool)
        requires
            can_test_opt(spec_adi(self.text@), pattern),
        ensures
            r == sound_matches(spec_adi(self.text@), pattern),
    {
        self.matches_sound_pattern(self.adi(), pattern)
    }

    /// Returns whether the last sound matches `pattern`.
    pub fn has_antya<P: Pattern>(&self, pattern: P) -> (r: bool)
        requires
            can_test_opt(spec_antya(self.text@), pattern),
        ensures
            r == sound_matches(spec_antya(self.text@), pattern),
    {
        self.matches_sound_pattern(self.antya(), pattern)
    }

    /// Returns whether the penultimate sound matches `pattern`.
    pub fn has_upadha<P: Pattern>(&self, pattern: P) -> (r: bool)
        requires
            can_test_opt(spec_upadha(self.text@), pattern),
        ensures
            r == sound_matches(spec_upadha(self.text@), pattern),
    {
        self.matches_sound_pattern(self.upadha(), pattern)
    }

    /// Returns whether the upadesha is `s`.
    pub fn has_u(&self, s: &str) -> (r: bool)
        ensures
            r == self.u_is(s@),
    {
        match &self.u {
            Some(u) => strings::str_eq(u.as_str(), s),
            None => false,
        }
    }

    /// Returns whether the upadesha is one of `items`.
    pub fn has_u_in(&self, items: &[&str]) -> (r: bool)
        ensures
            r == (self.u matches Some(x) && seq_has_str(items@, x@)),
    {
        match &self.u {
            Some(u) => strings::str_in(u.as_str(), items),
            None => false,
        }
    }

    /// Returns whether `u` is among the former upadeshas of this term.
    pub fn has_lakshana(&self, u: &str) -> (r: bool)
        ensures
            r == strings_have(self.lakshana@, u@),
    {
        let mut i: usize = 0;
        while i < self.lakshana.len()
            invariant
                i <= self.lakshana@.len(),
                forall|k: int| 0 <= k < i ==> (#[trigger] self.lakshana@[k])@ != u@,
            decreases self.lakshana@.len() - i,
        {
            if strings::str_eq(self.lakshana[i].as_str(), u) {
                return true;
            }
            i = i + 1;
        }
        false
    }

    /// Returns whether one of `u` is among the former upadeshas of this term.
    pub fn has_lakshana_in(&self, u: &[&str]) -> (r: bool)
        ensures
            r == self.lakshana_among(u@),
    {
        let mut i: usize = 0;
        while i < self.lakshana.len()
            invariant
                i <= self.lakshana@.len(),
                forall|k: int|
                    0 <= k < i ==> !seq_has_str(u@, (#[trigger] self.lakshana@[k])@),
            decreases self.lakshana@.len() - i,
        {
            if strings::str_in(self.lakshana[i].as_str(), u) {
                return true;
            }
            i = i + 1;
        }
        false
    }

    /// Returns whether the text is `text`.
    pub fn has_text(&self, text: &str) -> (r: bool)
        ensures
            r == (self.text@ == text@),
    {
        strings::str_eq(self.text.as_str(), text)
    }

    /// Returns whether the text is one of `items`.
    pub fn has_text_in(&self, items: &[&str]) -> (r: bool)
        ensures
            r == seq_has_str(items@, self.text@),
    {
        strings::str_in(self.text.as_str(), items)
    }

    /// Returns whether the text starts with one of `terms`.
    pub fn has_prefix_in(&self, terms: &[&str]) -> (r: bool)
        ensures
            r == exists|k: int|
                0 <= k < terms@.len() && (#[trigger] terms@[k])@.len() <= self.text@.len()
                    && self.text@.subrange(0, terms@[k]@.len() as int) == terms@[k]@,
    {
        let mut i: usize = 0;
        while i < terms.len()
            invariant
                i <= terms@.len(),
                forall|k: int|
                    0 <= k < i ==> !((#[trigger] terms@[k])@.len() <= self.text@.len()
                        && self.text@.subrange(0, terms@[k]@.len() as int) == terms@[k]@),
            decreases terms@.len() - i,
        {
            if strings::starts_with(self.text.as_str(), terms[i]) {
                return true;
            }
            i = i + 1;
        }
        false
    }

    /// Returns whether the term belongs to the given gana.
    pub fn has_gana(&self, gana: i32) -> (r: bool)
        ensures
            r == (self.gana == Some(gana)),
    {
        match self.gana {
            Some(g) => g == gana,
            None => false,
        }
    }

    // Tags
    /// Returns whether the term has all of `tags`.
    pub fn all(&self, tags: &[Tag]) -> (r: bool)
        ensures
            r == forall|k: int| 0 <= k < tags@.len() ==> self.tagged(#[trigger] tags@[k]),
    {
        let mut i: usize = 0;
        while i < tags.len()
            invariant
                i <= tags@.len(),
                forall|k: int| 0 <= k < i ==> self.tagged(#[trigger] tags@[k]),
            decreases tags@.len() - i,
        {
            if !self.tags.contains(tags[i]) {
                return false;
            }
            i = i + 1;
        }
        true
    }

    /// Returns whether the term has any of `tags`.
    pub fn any(&self, tags: &[Tag]) -> (r: bool)
        ensures
            r == exists|k: int| 0 <= k < tags@.len() && self.tagged(#[trigger] tags@[k]),
    {
        let mut i: usize = 0;
        while i < tags.len()
            invariant
                i <= tags@.len(),
                forall|k: int| 0 <= k < i ==> !self.tagged(#[trigger] tags@[k]),
            decreases tags@.len() - i,
        {
            if self.tags.contains(tags[i]) {
                return true;
            }
            i = i + 1;
        }
        false
    }

    /// Returns whether the term has any of `tags`.
    pub fn has_tag_in(&self, tags: &[Tag]) -> (r: bool)
        ensures
            r == exists|k: int| 0 <= k < tags@.len() && self.tagged(#[trigger] tags@[k]),
    {
        self.any(tags)
    }

    /// Returns whether the term has `tag`.
    pub fn has_tag(&self, tag: Tag) -> (r: bool)
        ensures
            r == self.tagged(tag),
    {
        self.tags.contains(tag)
    }

    // Mutators
    /// Sets both the upadesha and the text to `s`.
    pub fn set_upadesha(&mut self, s: &str)
        ensures
            final(self).u_is(s@),
            final(self).text@ == s@,
            final(self).tags == old(self).tags,
            final(self).gana == old(self).gana,
            final(self).number == old(self).number,
            final(self).lakshana == old(self).lakshana,
    {
        self.u = Some(strings::string_from(s));
        self.text = strings::string_from(s);
    }

    /// Adds `tag`.
    pub fn add_tag(&mut self, tag: Tag)
        ensures
            final(self).tags@ == old(self).tags@.insert(tag),
            final(self).u == old(self).u,
            final(self).text == old(self).text,
            final(self).gana == old(self).gana,
            final(self).number == old(self).number,
            final(self).lakshana == old(self).lakshana,
    {
        self.tags.insert(tag);
    }

    /// Adds all of `tags`.
    pub fn add_tags(&mut self, tags: &[Tag])
        ensures
            final(self).tags@ == old(self).tags@.union(tags@.to_set()),
            final(self).u == old(self).u,
            final(self).text == old(self).text,
            final(self).gana == old(self).gana,
            final(self).number == old(self).number,
            final(self).lakshana == old(self).lakshana,
    {
        let mut i: usize = 0;
        while i < tags.len()
            invariant
                i <= tags@.len(),
                self.tags@ == old(self).tags@.union(tags@.subrange(0, i as int).to_set()),
                self.u == old(self).u,
                self.text == old(self).text,
                self.gana == old(self).gana,
                self.number == old(self).number,
                self.lakshana == old(self).lakshana,
            decreases tags@.len() - i,
        {
            self.tags.insert(tags[i]);
            proof {
                lemma_prefix_set_push(tags@, i as int);
            }
            i = i + 1;
        }
        assert(tags@.subrange(0, tags@.len() as int) =~= tags@);
    }

    /// Removes `tag`.
    pub fn remove_tag(&mut self, tag: Tag)
        ensures
            final(self).tags@ == old(self).tags@.remove(tag),
            final(self).u == old(self).u,
            final(self).text == old(self).text,
            final(self).gana == old(self).gana,
            final(self).number == old(self).number,
            final(self).lakshana == old(self).lakshana,
    {
        self.tags.remove(tag);
    }

    /// Removes all of `tags`.
    pub fn remove_tags(&mut self, tags: &[Tag])
        ensures
            final(self).tags@ == old(self).tags@.difference(tags@.to_set()),
            final(self).u == old(self).u,
            final(self).text == old(self).text,
            final(self).gana == old(self).gana,
            final(self).number == old(self).number,
            final(self).lakshana == old(self).lakshana,
    {
        let mut i: usize = 0;
        while i < tags.len()
            invariant
                i <= tags@.len(),
                self.tags@ == old(self).tags@.difference(tags@.subrange(0, i as int).to_set()),
                self.u == old(self).u,
                self.text == old(self).text,
                self.gana == old(self).gana,
                self.number == old(self).number,
                self.lakshana == old(self).lakshana,
            decreases tags@.len() - i,
        {
            self.tags.remove(tags[i]);
            proof {
                lemma_prefix_set_push(tags@, i as int);
            }
            assert(self.tags@ =~= old(self).tags@.difference(
                tags@.subrange(0, (i + 1) as int).to_set(),
            ));
            i = i + 1;
        }
        assert(tags@.subrange(0, tags@.len() as int) =~= tags@);
    }
}

proof fn lemma_prefix_set_push<A>(s: Seq<A>, i: int)
    requires
        0 <= i < s.len(),
    ensures
        s.subrange(0, i + 1).to_set() == s.subrange(0, i).to_set().insert(s[i]),
{
    let pre = s.subrange(0, i);
    let post = s.subrange(0, i + 1);
    assert forall|d: A| #[trigger] post.contains(d) <==> (pre.contains(d) || d == s[i]) by {
        if pre.contains(d) {
            let k = choose|k: int| 0 <= k < pre.len() && pre[k] == d;
            assert(post[k] == d);
        }
        if d == s[i] {
            assert(post[i] == d);
        }
        if post.contains(d) {
            let k = choose|k: int| 0 <= k < post.len() && post[k] == d;
            if k < i {
                assert(pre[k] == d);
            }
        }
    }
    assert(post.to_set() =~= pre.to_set().insert(s[i]));
}

/// The first term, at `i` or later, that is not an agama; `start` where there is none.
pub open spec fn view_end(terms: Seq<Term>, start: int, i: int) -> int
    decreases terms.len() - i,
{
    if i >= terms.len() || i < 0 {
        start
    } else if !terms[i].tagged(Tag::Agama) {
        i
    } else {
        view_end(terms, start, i + 1)
    }
}

/// The first sound of the first term of `ts` that has text.
pub open spec fn first_sound(ts: Seq<Term>) -> Option<char>
    decreases ts.len(),
{
    if ts.len() == 0 {
        None
    } else if ts[0].text@.len() > 0 {
        Some(ts[0].text@[0])
    } else {
        first_sound(ts.drop_first())
    }
}

/// The last sound of the last term of `ts` that has text.
pub open spec fn last_sound(ts: Seq<Term>) -> Option<char>
    decreases ts.len(),
{
    if ts.len() == 0 {
        None
    } else if ts.last().text@.len() > 0 {
        Some(ts.last().text@[ts.last().text@.len() - 1])
    } else {
        last_sound(ts.drop_last())
    }
}

/// A run of terms that acts as a unit: any agamas, then the term they attach to.
#[derive(Debug)]
pub struct TermView<'a> {
    terms: &'a Vec<Term>,
    start: usize,
    end: usize,
}

impl<'a> TermView<'a> {
    #[verifier::type_invariant]
    spec fn wf(&self) -> bool {
        self.start <= self.end < self.terms@.len()
    }

    /// All the terms of the prakriya that this view looks into.
    pub closed spec fn all_terms(&self) -> Seq<Term> {
        self.terms@
    }

    /// The index of the first term of the view.
    pub closed spec fn first_index(&self) -> int {
        self.start as int
    }

    /// The index of the last term of the view.
    pub closed spec fn last_index(&self) -> int {
        self.end as int
    }

    /// The terms of the view.
    pub open spec fn terms_of(&self) -> Seq<Term> {
        self.all_terms().subrange(self.first_index(), self.last_index() + 1)
    }

    /// Whether some term of the view carries `tag`.
    pub open spec fn view_tagged(&self, tag: Tag) -> bool {
        exists|k: int| 0 <= k < self.terms_of().len() && (#[trigger] self.terms_of()[k]).tagged(tag)
    }

    /// Creates the view that starts at `start`, if there is a term there.
    pub fn new(terms: &'a Vec<Term>, start: usize) -> (r: Option<Self>)
        ensures
            r is None <==> start >= terms@.len(),
            r matches Some(v) ==> v.all_terms() == terms@ && v.first_index() == start
                && v.last_index() == view_end(terms@, start as int, start as int)
                && v.first_index() <= v.last_index() < terms@.len(),
    {
        if start >= terms.len() {
            return None;
        }
        let mut i = start;
        while i < terms.len()
            invariant
                start <= i <= terms@.len(),
                start < terms@.len(),
                view_end(terms@, start as int, start as int) == view_end(
                    terms@,
                    start as int,
                    i as int,
                ),
            decreases terms@.len() - i,
        {
            if !terms[i].has_tag(Tag::Agama) {
                assert(view_end(terms@, start as int, i as int) == i);
                return Some(TermView { terms, start, end: i });
            }
            i = i + 1;
        }
        Some(TermView { terms, start, end: start })
    }

    // Accessors
    /// Returns the terms of the view.
    pub fn slice(&self) -> (r: &[Term])
        ensures
            r@ == self.terms_of(),
            r@.len() >= 1,
    {
        proof {
            use_type_invariant(self);
        }
        let n = self.terms.len();
        assert(self.end < n);
        &self.terms.as_slice()[self.start..self.end + 1]
    }

    /// Returns the first term of the view.
    pub fn first(&self) -> (r: Option<&Term>)
        ensures
            r == Some(&self.all_terms()[self.first_index()]),
    {
        proof {
            use_type_invariant(self);
        }
        Some(&self.terms[self.start])
    }

    /// Returns the last term of the view.
    pub fn last(&self) -> (r: Option<&Term>)
        ensures
            r == Some(&self.all_terms()[self.last_index()]),
    {
        proof {
            use_type_invariant(self);
        }
        Some(&self.terms[self.end])
    }

    /// Returns the index of the first term of the view.
    pub fn start(&self) -> (r: usize)
        ensures
            r == self.first_index(),
    {
        self.start
    }

    /// Returns the `i`-th term of the view, if any.
    pub fn get(&self, i: usize) -> (r: Option<&Term>)
        ensures
            r == if i < self.terms_of().len() {
                Some(&self.terms_of()[i as int])
            } else {
                None
            },
    {
        let s = self.slice();
        if i < s.len() {
            Some(&s[i])
        } else {
            None
        }
    }

    /// Returns the index of the last term of the view.
    pub fn end(&self) -> (r: usize)
        ensures
            r == self.last_index(),
    {
        self.end
    }

    /// Returns whether the view has no text and ends the word.
    pub fn is_padanta(&self) -> (r: bool)
        ensures
            r == ((forall|k: int|
                0 <= k < self.terms_of().len() ==> (#[trigger] self.terms_of()[k]).text@.len()
                    == 0) && self.last_index() == self.all_terms().len() - 1),
    {
        self.is_empty() && self.ends_word()
    }

    /// Returns whether no term of the view has text.
    pub fn is_empty(&self) -> (r: bool)
        ensures
            r == forall|k: int|
                0 <= k < self.terms_of().len() ==> (#[trigger] self.terms_of()[k]).text@.len()
                    == 0,
    {
        let s = self.slice();
        let mut i: usize = 0;
        while i < s.len()
            invariant
                i <= s@.len(),
                s@ == self.terms_of(),
                forall|k: int| 0 <= k < i ==> (#[trigger] s@[k]).text@.len() == 0,
            decreases s@.len() - i,
        {
            if s[i].text.as_str().unicode_len() != 0 {
                return false;
            }
            i = i + 1;
        }
        true
    }

    /// Returns whether the view ends with the last term of the prakriya.
    pub fn ends_word(&self) -> (r: bool)
        ensures
            r == (self.last_index() == self.all_terms().len() - 1),
    {
        proof {
            use_type_invariant(self);
        }
        self.end == self.terms.len() - 1
    }

    fn matches_sound_pattern<P: Pattern>(&self, c: Option<char>, pattern: P) -> (r: bool)
        requires
            can_test_opt(c, pattern),
        ensures
            r == sound_matches(c, pattern),
    {
        match c {
            Some(c) => pattern.matches(c),
            None => false,
        }
    }

    /// Returns the first sound of the view.
    pub fn adi(&self) -> (r: Option<char>)
        ensures
            r == first_sound(self.terms_of()),
    {
        let s = self.slice();
        let mut i: usize = 0;
        assert(s@.subrange(0, s@.len() as int) =~= s@);
        while i < s.len()
            invariant
                i <= s@.len(),
                s@ == self.terms_of(),
                first_sound(s@) == first_sound(s@.subrange(i as int, s@.len() as int)),
            decreases s@.len() - i,
        {
            let ghost rest = s@.subrange(i as int, s@.len() as int);
            assert(rest[0] == s@[i as int]);
            assert(rest.drop_first() =~= s@.subrange(i + 1, s@.len() as int));
            match s[i].adi() {
                Some(c) => return Some(c),
                None => {},
            }
            i = i + 1;
        }
        assert(s@.subrange(i as int, s@.len() as int).len() == 0);
        None
    }

    /// Returns whether the first sound of the view matches `p`.
    pub fn has_adi<P: Pattern>(&self, p: P) -> (r: bool)
        requires
            can_test_opt(first_sound(self.terms_of()), p),
        ensures
            r == sound_matches(first_sound(self.terms_of()), p),
    {
        self.matches_sound_pattern(self.adi(), p)
    }

    /// Returns the last sound of the view.
    pub fn antya(&self) -> (r: Option<char>)
        ensures
            r == last_sound(self.terms_of()),
    {
        let s = self.slice();
        let mut i: usize = s.len();
        assert(s@.subrange(0, s@.len() as int) =~= s@);
        while i > 0
            invariant
                i <= s@.len(),
                s@ == self.terms_of(),
                last_sound(s@) == last_sound(s@.subrange(0, i as int)),
            decreases i,
        {
            let ghost pre = s@.subrange(0, i as int);
            assert(pre.last() == s@[i - 1]);
            assert(pre.drop_last() =~= s@.subrange(0, i - 1));
            match s[i - 1].antya() {
                Some(c) => return Some(c),
                None => {},
            }
            i = i - 1;
        }
        None
    }

    /// Returns whether the last sound of the view matches `pattern`.
    pub fn has_antya<P: Pattern>(&self, pattern: P) -> (r: bool)
        requires
            can_test_opt(last_sound(self.terms_of()), pattern),
        ensures
            r == sound_matches(last_sound(self.terms_of()), pattern),
    {
        self.matches_sound_pattern(self.antya(), pattern)
    }

    /// Returns whether the first term of the view has the upadesha `u`.
    pub fn has_u(&self, u: &str) -> (r: bool)
        ensures
            r == self.terms_of()[0].u_is(u@),
    {
        let s = self.slice();
        s[0].has_u(u)
    }

    /// Returns whether the first term of the view has one of the upadeshas `us`.
    pub fn has_u_in(&self, us: &[&str]) -> (r: bool)
        ensures
            r == (self.terms_of()[0].u matches Some(x) && seq_has_str(us@, x@)),
    {
        let s = self.slice();
        s[0].has_u_in(us)
    }

    /// Returns whether some term of the view has `tag`.
    pub fn has_tag(&self, tag: Tag) -> (r: bool)
        ensures
            r == self.view_tagged(tag),
    {
        let s = self.slice();
        let mut i: usize = 0;
        while i < s.len()
            invariant
                i <= s@.len(),
                s@ == self.terms_of(),
                forall|k: int| 0 <= k < i ==> !(#[trigger] s@[k]).tagged(tag),
            decreases s@.len() - i,
        {
            if s[i].has_tag(tag) {
                return true;
            }
            i = i + 1;
        }
        false
    }

    /// Returns whether some term of the view has the former upadesha `x`.
    pub fn has_lakshana(&self, x: &str) -> (r: bool)
        ensures
            r == exists|k: int|
                0 <= k < self.terms_of().len() && strings_have(
                    (#[trigger] self.terms_of()[k]).lakshana@,
                    x@,
                ),
    {
        let s = self.slice();
        let mut i: usize = 0;
        while i < s.len()
            invariant
                i <= s@.len(),
                s@ == self.terms_of(),
                forall|k: int| 0 <= k < i ==> !strings_have((#[trigger] s@[k]).lakshana@, x@),
            decreases s@.len() - i,
        {
            if s[i].has_lakshana(x) {
                return true;
            }
            i = i + 1;
        }
        false
    }

    /// Returns whether some term of the view has one of the former upadeshas `items`.
    pub fn has_lakshana_in(&self, items: &[&str]) -> (r: bool)
        ensures
            r == exists|k: int|
                0 <= k < self.terms_of().len() && (#[trigger] self.terms_of()[k]).lakshana_among(items@),
    {
        let s = self.slice();
        let mut i: usize = 0;
        while i < s.len()
            invariant
                i <= s@.len(),
                s@ == self.terms_of(),
                forall|k: int| 0 <= k < i ==> !(#[trigger] s@[k]).lakshana_among(items@),
            decreases s@.len() - i,
        {
            if s[i].has_lakshana_in(items) {
                return true;
            }
            i = i + 1;
        }
        false
    }

    /// Returns whether each of `tags` is on some term of the view.
    pub fn all(&self, tags: &[Tag]) -> (r: bool)
        ensures
            r == forall|j: int| 0 <= j < tags@.len() ==> self.view_tagged(#[trigger] tags@[j]),
    {
        let mut i: usize = 0;
        while i < tags.len()
            invariant
                i <= tags@.len(),
                forall|j: int| 0 <= j < i ==> self.view_tagged(#[trigger] tags@[j]),
            decreases tags@.len() - i,
        {
            if !self.has_tag(tags[i]) {
                return false;
            }
            i = i + 1;
        }
        true
    }

    /// Returns whether some of `tags` is on some term of the view.
    pub fn any(&self, tags: &[Tag]) -> (r: bool)
        ensures
            r == exists|j: int| 0 <= j < tags@.len() && self.view_tagged(#[trigger] tags@[j]),
    {
        let mut i: usize = 0;
        while i < tags.len()
            invariant
                i <= tags@.len(),
                forall|j: int| 0 <= j < i ==> !self.view_tagged(#[trigger] tags@[j]),
            decreases tags@.len() - i,
        {
            if self.has_tag(tags[i]) {
                return true;
            }
            i = i + 1;
        }
        false
    }
}


/// The index of the first term, at `j` or later, whose text is not empty; -1 where there is
/// none.
pub open spec fn next_nonempty(ts: Seq<Term>, j: int) -> int
    decreases ts.len() - j,
{
    if j < 0 || j >= ts.len() {
        -1
    } else if ts[j].text@.len() > 0 {
        j
    } else {
        next_nonempty(ts, j + 1)
    }
}

/// The first term with text is found where all terms before it are empty.
pub proof fn lemma_next_nonempty_found(ts: Seq<Term>, j: int, n: int)
    requires
        0 <= j <= n < ts.len(),
        ts[n].text@.len() > 0,
        forall|k: int| j <= k < n ==> (#[trigger] ts[k]).text@.len() == 0,
    ensures
        next_nonempty(ts, j) == n,
    decreases n - j,
{
    if j < n {
        lemma_next_nonempty_found(ts, j + 1, n);
    }
}

/// No term with text is found where all terms are empty.
pub proof fn lemma_next_nonempty_none(ts: Seq<Term>, j: int)
    requires
        0 <= j,
        forall|k: int| j <= k < ts.len() ==> (#[trigger] ts[k]).text@.len() == 0,
    ensures
        next_nonempty(ts, j) == -1,
    decreases ts.len() - j,
{
    if j < ts.len() {
        lemma_next_nonempty_none(ts, j + 1);
    }
}

} // verus!
