//! Regular expressions, through the `regex` crate.
//!
//! A `Pattern` is a compiled regular expression together with the text it was compiled from.
//! Its fields are private to this module and `compile` is the only function that makes one,
//! so the regex of a `Pattern` is always the one compiled from its `source`: the contracts of
//! the searches below speak of that source.
use vstd::prelude::*;

verus! {

#[verifier::external_type_specification]
#[verifier::external_body]
pub struct ExRegex(regex::Regex);

/// A compiled regular expression and the pattern it was compiled from.
pub struct Pattern {
    regex: regex::Regex,
    source: String,
}

impl Pattern {
    /// The pattern that this regex was compiled from.
    pub closed spec fn source(&self) -> Seq<char> {
        self.source@
    }
}

/// Whether `regex::Regex::new` accepts `pattern`: it is valid syntax and its compiled form stays
/// under the crate's default size limit.
pub uninterp spec fn regex_compiles(pattern: Seq<char>) -> bool;

/// The texts of the successive non-overlapping matches of the regex `pattern` in `haystack`,
/// as `regex::Regex::find_iter` yields them.
pub uninterp spec fn regex_find_all(pattern: Seq<char>, haystack: Seq<char>) -> Seq<Seq<char>>;

/// `haystack` with every non-overlapping match of the regex `pattern` replaced by the expansion
/// of `replacement` for that match (where `$` names a capture group, its text is put in), as
/// `regex::Regex::replace_all` returns it.
pub uninterp spec fn regex_replace_all(
    pattern: Seq<char>,
    haystack: Seq<char>,
    replacement: Seq<char>,
) -> Seq<char>;

/// Compiles `pattern` with `regex::Regex::new`. Trusted: the result is `Some` exactly when
/// `Regex::new` returns `Ok`, which depends on the pattern alone; the `Pattern` keeps the text
/// it was compiled from; the pattern of anunasika vowels, which is valid syntax and small,
/// compiles.
#[verifier::external_body]
pub(crate) fn compile(pattern: &str) -> (r: Option<Pattern>)
    ensures
        r is Some == regex_compiles(pattern@),
        r matches Some(c) ==> c.source() == pattern@,
        pattern@ == crate::it_samjna::anunasika_pattern() ==> r is Some,
{
    match regex::Regex::new(pattern) {
        Ok(regex) => Some(Pattern { regex, source: pattern.to_string() }),
        Err(_) => None,
    }
}

/// The texts of the matches of `re` in `haystack`, from `regex::Regex::find_iter` and
/// `regex::Match::as_str`. Trusted: they are `regex_find_all` of the pattern and the haystack,
/// in order; for the pattern of anunasika vowels, they are `anunasika_matches`, the leftmost
/// non-overlapping matches that the regex documentation describes, its optional accent mark
/// taken where it is there.
#[verifier::external_body]
pub(crate) fn find_all(re: &Pattern, haystack: &str) -> (r: Vec<String>)
    ensures
        r@.len() == regex_find_all(re.source(), haystack@).len(),
        forall|k: int| 0 <= k < r@.len() ==> (#[trigger] r@[k])@ == regex_find_all(re.source(), haystack@)[k],
        re.source() == crate::it_samjna::anunasika_pattern() ==> r@.len()
            == crate::it_samjna::anunasika_matches(haystack@, 0).len() && forall|k: int|
            0 <= k < r@.len() ==> (#[trigger] r@[k])@ == crate::it_samjna::anunasika_matches(
                haystack@,
                0,
            )[k],
{
    re.regex.find_iter(haystack).map(|m| m.as_str().to_string()).collect()
}

/// `haystack` with every match of `re` replaced by the expansion of `replacement` (its `$`
/// groups filled in), from `regex::Regex::replace_all`. Trusted: the result is
/// `regex_replace_all` of the pattern, the haystack and the replacement; for the pattern of
/// anunasika vowels and an empty replacement, it is the haystack without those matches
/// (`without_anunasika`).
#[verifier::external_body]
pub(crate) fn replace_all(re: &Pattern, haystack: &str, replacement: &str) -> (r: String)
    ensures
        r@ == regex_replace_all(re.source(), haystack@, replacement@),
        re.source() == crate::it_samjna::anunasika_pattern() && replacement@ == Seq::<char>::empty()
            ==> r@ == crate::it_samjna::without_anunasika(haystack@, 0),
{
    re.regex.replace_all(haystack, replacement).into_owned()
}

} // verus!
