//! The it-samjna rules (1.3.2 - 1.3.9), which find the it-letters of an upadesha, mark the
//! term with the tags they stand for, and remove them from its text. Most derivations use these
//! rules at least once.
pub mod pattern;

use crate::constants::{spec_parse_it, PrakriyaError, Tag as T};
use crate::operations::same_but_text_and_tags;
use crate::prakriya::Prakriya;
use crate::sounds::{filter_in, panini_order, spec_s};
use crate::strings;
use vstd::prelude::*;

verus! {

/// The regex of an anunasika vowel in upadesha: a vowel of `ac`, then `~`, then an optional
/// accent mark, `\` or `^`.
pub open spec fn anunasika_pattern() -> Seq<char> {
    seq!['(', '['] + filter_in(panini_order(), spec_s("ac"@)) + seq![
        ']',
        '~',
        '[',
        '\\',
        '\\',
        '^',
        ']',
        '?',
        ')',
    ]
}

/// The varttika by which `i~r` is its own it-letter: `text` without a final `i~r` or `i~^r`,
/// the tags that it gives, and whether it was there.
pub open spec fn irit_stage(text: Seq<char>) -> (Seq<char>, Set<T>, bool) {
    let n = text.len();
    if n >= 3 && text.subrange(n - 3, n as int) == seq!['i', '~', 'r'] {
        (text.subrange(0, n - 3), set![T::irit], true)
    } else if n >= 4 && text.subrange(n - 4, n as int) == seq!['i', '~', '^', 'r'] {
        (text.subrange(0, n - 4), set![T::irit, T::svaritet], true)
    } else {
        (text, Set::empty(), false)
    }
}

/// The accent that an anunasika match `m` marks: anudatta for `\`, svarita for `^`.
pub open spec fn accent_it(m: Seq<char>) -> Set<T> {
    if m.contains('\\') {
        set![T::anudattet]
    } else if m.contains('^') {
        set![T::svaritet]
    } else {
        Set::empty()
    }
}

/// The tag of the vowel that begins the anunasika match `m`, if it is an it-letter.
pub open spec fn vowel_it(m: Seq<char>) -> Option<T> {
    if m.len() >= 1 {
        spec_parse_it(m.subrange(0, 1))
    } else {
        None
    }
}

/// Whether every match of `ms` begins with an it-letter.
pub open spec fn matches_ok(ms: Seq<Seq<char>>) -> bool {
    forall|k: int| 0 <= k < ms.len() ==> (#[trigger] vowel_it(ms[k])) is Some
}

/// The tags that the anunasika matches `ms` give (1.3.2).
pub open spec fn match_tags(ms: Seq<Seq<char>>) -> Set<T>
    decreases ms.len(),
{
    if ms.len() == 0 {
        Set::empty()
    } else {
        match_tags(ms.drop_last()).union(accent_it(ms.last())).insert(vowel_it(ms.last())->0)
    }
}

/// The accents that remain in `x`: anudatta for a `\`, svarita for a `^`.
pub open spec fn accent_tags(x: Seq<char>) -> Set<T> {
    (if x.contains('\\') {
        set![T::Anudatta]
    } else {
        Set::empty()
    }).union(
        if x.contains('^') {
            set![T::Svarita]
        } else {
            Set::empty()
        },
    )
}

/// `x` without any `c`.
pub open spec fn remove_all(x: Seq<char>, c: char) -> Seq<char>
    decreases x.len(),
{
    if x.len() == 0 {
        x
    } else if x.last() == c {
        remove_all(x.drop_last(), c)
    } else {
        remove_all(x.drop_last(), c).push(x.last())
    }
}

/// The sounds of `tu~ s m`.
pub open spec fn is_tusma(c: char) -> bool {
    c == 't' || c == 'T' || c == 'd' || c == 'D' || c == 'n' || c == 's' || c == 'm'
}

/// The sounds of `cu~ wu~`.
pub open spec fn is_cutu(c: char) -> bool {
    c == 'c' || c == 'C' || c == 'j' || c == 'J' || c == 'Y' || c == 'w' || c == 'W' || c == 'q'
        || c == 'Q' || c == 'R'
}

/// The sounds `C J W Q`, which later rules replace, so that 1.3.7 keeps them.
pub open spec fn is_chjwq(c: char) -> bool {
    c == 'C' || c == 'J' || c == 'W' || c == 'Q'
}

/// The sounds of `l S ku~`.
pub open spec fn is_lashaku(c: char) -> bool {
    c == 'l' || c == 'S' || c == 'k' || c == 'K' || c == 'g' || c == 'G' || c == 'N'
}

/// The upadeshas of the ten lakaras, whose first `l` 1.3.8 keeps.
pub open spec fn is_lakara(u: Seq<char>) -> bool {
    u.len() == 4 && u[0] == 'l' && u[2] == '~' && (u[3] == 'w' || u[3] == 'N') && (u[1] == 'a'
        || u[1] == 'i' || u[1] == 'u' || u[1] == 'f' || (u[3] == 'w' && (u[1] == 'e' || u[1]
        == 'o')))
}

/// 1.3.3 (a final consonant of the upadesha is an it-letter) and 1.3.4 (not the `tu~ s m` of a
/// vibhakti), on the text `x` and the tags `g`; the flag is false where the it-letter has no
/// tag or the text has no sound left to remove.
pub open spec fn hal_it_stage(u: Seq<char>, irit: bool, x: Seq<char>, g: Set<T>) -> (
    Seq<char>,
    Set<T>,
    bool,
) {
    if u.len() > 0 && spec_s("hal"@).contains(u.last()) && !irit && !(g.contains(T::Vibhakti)
        && is_tusma(u.last())) {
        match spec_parse_it(seq![u.last()]) {
            Some(tag) => if x.len() > 0 {
                (x.drop_last(), g.insert(tag), true)
            } else {
                (x, g, false)
            },
            None => (x, g, false),
        }
    } else {
        (x, g, true)
    }
}

/// `x` and `g` after an initial `prefix`, if `x` has it, is removed as an it marked by `tag`.
pub open spec fn strip_it_prefix(x: Seq<char>, g: Set<T>, prefix: Seq<char>, tag: T) -> (
    Seq<char>,
    Set<T>,
) {
    if prefix.len() <= x.len() && x.subrange(0, prefix.len() as int) == prefix {
        (x.subrange(prefix.len() as int, x.len() as int), g.insert(tag))
    } else {
        (x, g)
    }
}

/// 1.3.5: the initial `Yi`, `wu` and `qu` are it-letters, removed in that order.
pub open spec fn prefix_it_stage(x: Seq<char>, g: Set<T>) -> (Seq<char>, Set<T>) {
    let a = strip_it_prefix(x, g, seq!['Y', 'i'], T::YIt);
    let b = strip_it_prefix(a.0, a.1, seq!['w', 'u'], T::wvit);
    strip_it_prefix(b.0, b.1, seq!['q', 'u'], T::qvit)
}

/// The texts of the strings `ms`.
pub open spec fn match_texts(ms: Seq<String>) -> Seq<Seq<char>> {
    ms.map_values(|m: String| m@)
}

fn all_matches_ok(ms: &Vec<String>) -> (r: bool)
    ensures
        r == matches_ok(match_texts(ms@)),
{
    let ghost names = match_texts(ms@);
    let mut k: usize = 0;
    while k < ms.len()
        invariant
            k <= ms@.len(),
            names == match_texts(ms@),
            forall|j: int| 0 <= j < k ==> (#[trigger] vowel_it(names[j])) is Some,
        decreases ms@.len() - k,
    {
        let m = strings::chars_of(ms[k].as_str());
        assert(m@ == names[k as int]);
        if m.len() == 0 || !is_it_letter(m[0]) {
            proof {
                if m@.len() > 0 {
                    assert(m@.subrange(0, 1) =~= seq![m@[0]]);
                }
                assert(vowel_it(names[k as int]) is None);
            }
            return false;
        }
        assert(m@.subrange(0, 1) =~= seq![m@[0]]);
        k = k + 1;
    }
    true
}

fn match_tag_vec(ms: &Vec<String>) -> (tags: Vec<T>)
    requires
        matches_ok(match_texts(ms@)),
    ensures
        tags@.to_set() == match_tags(match_texts(ms@)),
{
    let ghost names = match_texts(ms@);
    let mut tags: Vec<T> = Vec::new();
    let mut k: usize = 0;
    assert(names.subrange(0, 0) =~= Seq::<Seq<char>>::empty());
    assert(tags@.to_set() =~= Set::<T>::empty());
    while k < ms.len()
        invariant
            k <= ms@.len(),
            names == match_texts(ms@),
            matches_ok(names),
            tags@.to_set() == match_tags(names.subrange(0, k as int)),
        decreases ms@.len() - k,
    {
        let m = strings::chars_of(ms[k].as_str());
        let ghost name = names[k as int];
        assert(m@ == name);
        let ghost before = tags@;
        if has_char(&m, '\\') {
            tags.push(T::anudattet);
            proof {
                lemma_push_tag(before, T::anudattet);
            }
        } else if has_char(&m, '^') {
            tags.push(T::svaritet);
            proof {
                lemma_push_tag(before, T::svaritet);
            }
        }
        assert(tags@.to_set() == before.to_set().union(accent_it(name))) by {
            assert(before.to_set().union(Set::<T>::empty()) =~= before.to_set());
            assert(before.to_set().insert(T::anudattet) =~= before.to_set().union(set![T::anudattet]));
            assert(before.to_set().insert(T::svaritet) =~= before.to_set().union(set![T::svaritet]));
        }
        assert(vowel_it(names[k as int]) is Some);
        assert(m@.subrange(0, 1) =~= seq![m@[0]]);
        let tag = it_tag(m[0]);
        let ghost mid = tags@;
        tags.push(tag);
        proof {
            lemma_push_tag(mid, tag);
            assert(names.subrange(0, (k + 1) as int).drop_last() =~= names.subrange(0, k as int));
            assert(names.subrange(0, (k + 1) as int).last() == name);
        }
        k = k + 1;
    }
    assert(names.subrange(0, names.len() as int) =~= names);
    tags
}

/// Removes the first sound of `x` as the it-letter that begins the upadesha `u`.
pub open spec fn drop_adi_it(u: Seq<char>, x: Seq<char>, g: Set<T>) -> (Seq<char>, Set<T>, bool) {
    match if u.len() > 0 {
        spec_parse_it(seq![u[0]])
    } else {
        None
    } {
        Some(tag) => if x.len() > 0 {
            (x.subrange(1, x.len() as int), g.insert(tag), true)
        } else {
            (x, g, false)
        },
        None => (x, g, false),
    }
}

/// 1.3.6 - 1.3.8: the initial `z`, `cu~ wu~` and `l S ku~` of a pratyaya are it-letters.
pub open spec fn pratyaya_it_stage(u: Seq<char>, x: Seq<char>, g: Set<T>) -> (
    Seq<char>,
    Set<T>,
    bool,
) {
    if !g.contains(T::Pratyaya) {
        (x, g, true)
    } else if u.len() > 0 && u[0] == 'z' {
        drop_adi_it(u, x, g)
    } else if u.len() > 0 && is_cutu(u[0]) {
        if is_chjwq(u[0]) {
            (x, g, true)
        } else {
            drop_adi_it(u, x, g)
        }
    } else if !g.contains(T::Taddhita) && x.len() > 0 && is_lashaku(x[0]) {
        if is_lakara(u) {
            (x, g, true)
        } else {
            drop_adi_it(u, x, g)
        }
    } else {
        (x, g, true)
    }
}

/// What the it-samjna rules make of the text `text` and the tags `tags` of a term with the
/// upadesha `u`: the text and tags they leave, and whether they ran to the end. They stop
/// where a match of the regex of anunasika vowels or the upadesha names
/// an it-letter that has no tag, or where no sound is left to remove.
pub open spec fn it_samjna_outcome(u: Seq<char>, text: Seq<char>, tags: Set<T>) -> (
    Seq<char>,
    Set<T>,
    bool,
) {
    let s1 = irit_stage(text);
    let x1 = s1.0;
    let g1 = tags.union(s1.1);
    let ms = anunasika_matches(x1, 0);
    if !matches_ok(ms) {
        (x1, g1, false)
    } else {
        let x2 = without_anunasika(x1, 0);
        let g3 = g1.union(match_tags(ms)).union(accent_tags(x2));
        let x3 = remove_all(remove_all(x2, '\\'), '^');
        let s4 = hal_it_stage(u, s1.2, x3, g3);
        if !s4.2 {
            s4
        } else {
            let s5 = prefix_it_stage(s4.0, s4.1);
            pratyaya_it_stage(u, s5.0, s5.1)
        }
    }
}

/// Whether the term at `i` exists and has an upadesha.
pub open spec fn has_upadesha_at(p: Prakriya, i: int) -> bool {
    0 <= i < p.terms_seq().len() && p.terms_seq()[i].u is Some
}

/// Whether a match of `anunasika_pattern` starts at `i` of `h`: a vowel of the pattern's class,
/// then `~`.
pub open spec fn anunasika_at(h: Seq<char>, i: int) -> bool {
    0 <= i && i + 1 < h.len() && filter_in(panini_order(), spec_s("ac"@)).contains(h[i]) && h[i + 1]
        == '~'
}

/// The length of the match of `anunasika_pattern` that starts at `i` of `h`: three where an
/// accent mark, a backslash or `^`, follows the `~`, else two.
pub open spec fn anunasika_len(h: Seq<char>, i: int) -> int {
    if i + 2 < h.len() && (h[i + 2] == '\\' || h[i + 2] == '^') {
        3
    } else {
        2
    }
}

/// The matches of `anunasika_pattern` in `h` from `i` on, left to right, each search going on
/// after the match before: the texts that `regex::Regex::find_iter` yields for it.
pub open spec fn anunasika_matches(h: Seq<char>, i: int) -> Seq<Seq<char>>
    decreases h.len() - i,
{
    if i < 0 || i >= h.len() {
        Seq::empty()
    } else if anunasika_at(h, i) {
        seq![h.subrange(i, i + anunasika_len(h, i))] + anunasika_matches(h, i + anunasika_len(h, i))
    } else {
        anunasika_matches(h, i + 1)
    }
}

/// `h` from `i` on with the matches of `anunasika_pattern` removed: what
/// `regex::Regex::replace_all` gives for it with an empty replacement.
pub open spec fn without_anunasika(h: Seq<char>, i: int) -> Seq<char>
    decreases h.len() - i,
{
    if i < 0 || i >= h.len() {
        Seq::empty()
    } else if anunasika_at(h, i) {
        without_anunasika(h, i + anunasika_len(h, i))
    } else {
        seq![h[i]] + without_anunasika(h, i + 1)
    }
}

fn make_anunasika_pattern() -> (r: String)
    ensures
        r@ == anunasika_pattern(),
{
    proof {
        crate::ac_sandhi::lemma_sound_lists();
        reveal_strlit("([");
        reveal_strlit("]~[\\\\^]?)");
    }
    let ac = crate::sounds::s("ac").to_string();
    let head = strings::concat("([", ac.as_str());
    let r = strings::concat(head.as_str(), "]~[\\\\^]?)");
    assert(r@ =~= anunasika_pattern());
    r
}

fn has_char(v: &Vec<char>, c: char) -> (r: bool)
    ensures
        r == v@.contains(c),
{
    let mut k: usize = 0;
    while k < v.len()
        invariant
            k <= v@.len(),
            forall|j: int| 0 <= j < k ==> v@[j] != c,
        decreases v@.len() - k,
    {
        if v[k] == c {
            assert(v@[k as int] == c);
            return true;
        }
        k = k + 1;
    }
    false
}

fn without_char(v: &Vec<char>, c: char) -> (r: Vec<char>)
    ensures
        r@ == remove_all(v@, c),
{
    let mut r: Vec<char> = Vec::new();
    let mut k: usize = 0;
    while k < v.len()
        invariant
            k <= v@.len(),
            r@ == remove_all(v@.subrange(0, k as int), c),
        decreases v@.len() - k,
    {
        assert(v@.subrange(0, (k + 1) as int).drop_last() =~= v@.subrange(0, k as int));
        if v[k] != c {
            r.push(v[k]);
        }
        k = k + 1;
    }
    assert(v@.subrange(0, v@.len() as int) =~= v@);
    r
}

fn sub_chars(v: &Vec<char>, from: usize, to: usize) -> (r: Vec<char>)
    requires
        from <= to <= v@.len(),
    ensures
        r@ == v@.subrange(from as int, to as int),
{
    let mut r: Vec<char> = Vec::new();
    let mut k: usize = from;
    while k < to
        invariant
            from <= k <= to,
            to <= v@.len(),
            r@ == v@.subrange(from as int, k as int),
        decreases to - k,
    {
        r.push(v[k]);
        assert(r@ =~= v@.subrange(from as int, (k + 1) as int));
        k = k + 1;
    }
    r
}

fn starts_with_chars(v: &Vec<char>, a: char, b: char) -> (r: bool)
    ensures
        r == (2 <= v@.len() && v@.subrange(0, 2) == seq![a, b]),
{
    if v.len() >= 2 && v[0] == a && v[1] == b {
        assert(v@.subrange(0, 2) =~= seq![a, b]);
        true
    } else {
        proof {
            if 2 <= v@.len() && v@.subrange(0, 2) == seq![a, b] {
                assert(v@.subrange(0, 2)[0] == a);
                assert(v@.subrange(0, 2)[1] == b);
            }
        }
        false
    }
}

/// Whether `c` is an it-letter.
fn is_it_letter(c: char) -> (r: bool)
    ensures
        r == (spec_parse_it(seq![c]) is Some),
{
    matches!(
        c,
        'a' | 'A' | 'i' | 'I' | 'u' | 'U' | 'f' | 'x' | 'e' | 'o' | 'k' | 'K' | 'G' | 'N' | 'c'
            | 'C' | 'j' | 'J' | 'Y' | 'w' | 'q' | 'Q' | 'R' | 'n' | 'p' | 'P' | 'm' | 'l' | 'S'
            | 'z'
    )
}

/// The tag of the it-letter `c`.
fn it_tag(c: char) -> (r: T)
    requires
        spec_parse_it(seq![c]) is Some,
    ensures
        r == spec_parse_it(seq![c])->0,
{
    let s = strings::char_string(c);
    match T::parse_it(s.as_str()) {
        Ok(tag) => tag,
        Err(_) => T::zit,
    }
}

fn is_tusma_char(c: char) -> (r: bool)
    ensures
        r == is_tusma(c),
{
    matches!(c, 't' | 'T' | 'd' | 'D' | 'n' | 's' | 'm')
}

fn is_cutu_char(c: char) -> (r: bool)
    ensures
        r == is_cutu(c),
{
    matches!(c, 'c' | 'C' | 'j' | 'J' | 'Y' | 'w' | 'W' | 'q' | 'Q' | 'R')
}

fn is_lashaku_char(c: char) -> (r: bool)
    ensures
        r == is_lashaku(c),
{
    matches!(c, 'l' | 'S' | 'k' | 'K' | 'g' | 'G' | 'N')
}

fn is_lakara_upadesha(u: &Vec<char>) -> (r: bool)
    ensures
        r == is_lakara(u@),
{
    u.len() == 4 && u[0] == 'l' && u[2] == '~' && (u[3] == 'w' || u[3] == 'N') && (u[1] == 'a'
        || u[1] == 'i' || u[1] == 'u' || u[1] == 'f' || (u[3] == 'w' && (u[1] == 'e' || u[1]
        == 'o')))
}

/// Sets the text of the term at `i` to `text` and adds `tags` to it.
fn write_term(p: &mut Prakriya, i: usize, text: &Vec<char>, tags: &Vec<T>)
    requires
        i < old(p).terms_seq().len(),
    ensures
        Prakriya::rewrote(*old(p), *final(p)),
        final(p).terms_seq() == old(p).terms_seq().update(
            i as int,
            final(p).terms_seq()[i as int],
        ),
        final(p).terms_seq()[i as int].text@ == text@,
        final(p).terms_seq()[i as int].tags@ == old(p).terms_seq()[i as int].tags@.union(
            tags@.to_set(),
        ),
        same_but_text_and_tags(old(p).terms_seq()[i as int], final(p).terms_seq()[i as int]),
{
    proof {
        crate::prakriya::lemma_rewrote_refl(*old(p));
    }
    if let Some(t) = p.get_mut(i) {
        t.text = strings::string_from_chars(text.as_slice());
        t.add_tags(tags.as_slice());
    }
}

/// Records the step `code`.
fn step_rule(p: &mut Prakriya, code: crate::prakriya::Rule)
    ensures
        Prakriya::rewrote(*old(p), *final(p)),
        final(p).terms_seq() == old(p).terms_seq(),
{
    p.step(code);
    assert(old(p).steps().subrange(0, old(p).steps().len() as int) =~= old(p).steps());
}

proof fn lemma_one_tag(a: T)
    ensures
        seq![a].to_set() == set![a],
{
    assert(seq![a][0] == a);
    assert(seq![a].to_set() =~= set![a]);
}

proof fn lemma_push_tag(s: Seq<T>, a: T)
    ensures
        s.push(a).to_set() == s.to_set().insert(a),
{
    s.lemma_push_to_set_commute(a);
}

/// Whether `b` is `a` with only the term at `i` changed, to the text `x` and the tags `g`, and
/// with steps recorded.
pub open spec fn term_became(a: Prakriya, b: Prakriya, i: int, x: Seq<char>, g: Set<T>) -> bool {
    &&& 0 <= i < a.terms_seq().len()
    &&& Prakriya::rewrote(a, b)
    &&& b.terms_seq() == a.terms_seq().update(i, b.terms_seq()[i])
    &&& b.terms_seq()[i].text@ == x
    &&& b.terms_seq()[i].tags@ == g
    &&& same_but_text_and_tags(a.terms_seq()[i], b.terms_seq()[i])
}

proof fn lemma_became_trans(
    a: Prakriya,
    b: Prakriya,
    c: Prakriya,
    i: int,
    x: Seq<char>,
    g: Set<T>,
    y: Seq<char>,
    h: Set<T>,
)
    requires
        term_became(a, b, i, x, g),
        term_became(b, c, i, y, h),
    ensures
        term_became(a, c, i, y, h),
{
    crate::prakriya::lemma_rewrote_trans(a, b, c);
    assert(c.terms_seq() =~= a.terms_seq().update(i, c.terms_seq()[i]));
}

proof fn lemma_became_refl(a: Prakriya, i: int)
    requires
        0 <= i < a.terms_seq().len(),
    ensures
        term_became(a, a, i, a.terms_seq()[i].text@, a.terms_seq()[i].tags@),
{
    crate::prakriya::lemma_rewrote_refl(a);
    assert(a.terms_seq() =~= a.terms_seq().update(i, a.terms_seq()[i]));
}

/// Writes the text `text` and adds the tags `tags` to the term at `i`, then records `code` if
/// there is one.
fn write_and_step(
    p: &mut Prakriya,
    i: usize,
    text: &Vec<char>,
    tags: &Vec<T>,
    code: Option<crate::prakriya::Rule>,
)
    requires
        i < old(p).terms_seq().len(),
    ensures
        term_became(
            *old(p),
            *final(p),
            i as int,
            text@,
            old(p).terms_seq()[i as int].tags@.union(tags@.to_set()),
        ),
{
    write_term(p, i, text, tags);
    let ghost pw = *p;
    if let Some(c) = code {
        step_rule(p, c);
        proof {
            crate::prakriya::lemma_rewrote_trans(*old(p), pw, *p);
        }
    }
}

/// The varttika on `i~r`, 1.3.2 and the removal of the accent marks, on the term at `i`.
/// Returns whether the term had `i~r`, or `None` where a match does not begin with an
/// it-letter.
fn anunasika_stage(p: &mut Prakriya, i: usize, re: &pattern::Pattern) -> (r: Option<bool>)
    requires
        i < old(p).terms_seq().len(),
        re.source() == anunasika_pattern(),
    ensures
        ({
            let t = old(p).terms_seq()[i as int];
            let s1 = irit_stage(t.text@);
            let g1 = t.tags@.union(s1.1);
            let ms = anunasika_matches(s1.0, 0);
            let x2 = without_anunasika(s1.0, 0);
            &&& r is Some == matches_ok(ms)
            &&& r is None ==> term_became(*old(p), *final(p), i as int, s1.0, g1)
            &&& r matches Some(irit) ==> irit == s1.2 && term_became(
                *old(p),
                *final(p),
                i as int,
                remove_all(remove_all(x2, '\\'), '^'),
                g1.union(match_tags(ms)).union(accent_tags(x2)),
            )
        }),
{
    let ghost p0 = *p;
    let ghost t0 = p0.terms_seq()[i as int];
    let text0 = strings::chars_of(p.terms()[i].text.as_str());
    let n0 = text0.len();
    let mut irit_tags: Vec<T> = Vec::new();
    let mut irit = false;
    let mut text = sub_chars(&text0, 0, n0);
    if n0 >= 3 && text0[n0 - 3] == 'i' && text0[n0 - 2] == '~' && text0[n0 - 1] == 'r' {
        text = sub_chars(&text0, 0, n0 - 3);
        irit_tags.push(T::irit);
        irit = true;
        proof {
            assert(text0@.subrange(n0 - 3, n0 as int) =~= seq!['i', '~', 'r']);
            lemma_one_tag(T::irit);
        }
    } else if n0 >= 4 && text0[n0 - 4] == 'i' && text0[n0 - 3] == '~' && text0[n0 - 2] == '^'
        && text0[n0 - 1] == 'r' {
        text = sub_chars(&text0, 0, n0 - 4);
        irit_tags.push(T::irit);
        irit_tags.push(T::svaritet);
        irit = true;
        proof {
            assert(text0@.subrange(n0 - 4, n0 as int) =~= seq!['i', '~', '^', 'r']);
            lemma_one_tag(T::irit);
            lemma_push_tag(seq![T::irit], T::svaritet);
            assert(seq![T::irit].push(T::svaritet) =~= irit_tags@);
            assert(set![T::irit].insert(T::svaritet) =~= set![T::irit, T::svaritet]);
            let s = text0@.subrange(n0 - 3, n0 as int);
            if n0 >= 3 && s == seq!['i', '~', 'r'] {
                assert(s[1] == '~');
            }
        }
    } else {
        proof {
            assert(text0@.subrange(0, n0 as int) =~= text0@);
            assert(irit_tags@.to_set() =~= Set::<T>::empty());
            let s = text0@.subrange(n0 - 3, n0 as int);
            if n0 >= 3 && s == seq!['i', '~', 'r'] {
                assert(s[0] == 'i' && s[1] == '~' && s[2] == 'r');
            }
            let s4 = text0@.subrange(n0 - 4, n0 as int);
            if n0 >= 4 && s4 == seq!['i', '~', '^', 'r'] {
                assert(s4[0] == 'i' && s4[1] == '~' && s4[2] == '^' && s4[3] == 'r');
            }
        }
    }
    let ghost s1 = irit_stage(t0.text@);
    assert(text@ == s1.0 && irit == s1.2 && irit_tags@.to_set() == s1.1);
    write_and_step(p, i, &text, &irit_tags, None);
    let ghost p1 = *p;
    let ghost g1 = t0.tags@.union(s1.1);

    // 1.3.2 upadeshe 'j anunasika it
    let text1 = strings::string_from_chars(text.as_slice());
    let ms = pattern::find_all(re, text1.as_str());
    let ghost names = anunasika_matches(text@, 0);
    assert(names =~= match_texts(ms@));
    if !all_matches_ok(&ms) {
        return None;
    }
    let tags = match_tag_vec(&ms);
    proof {
        reveal_strlit("");
        assert(""@ =~= Seq::<char>::empty());
    }
    let x2s = pattern::replace_all(re, text1.as_str(), "");
    let x2 = strings::chars_of(x2s.as_str());
    write_and_step(p, i, &x2, &tags, Some("1.3.2"));
    let ghost g2 = g1.union(match_tags(names));
    proof {
        lemma_became_trans(p0, p1, *p, i as int, s1.0, g1, x2@, g2);
    }
    let ghost p2 = *p;

    // The accent marks.
    let mut acc: Vec<T> = Vec::new();
    if has_char(&x2, '\\') {
        acc.push(T::Anudatta);
    }
    let ghost acc1 = acc@;
    if has_char(&x2, '^') {
        acc.push(T::Svarita);
    }
    proof {
        if x2@.contains('\\') {
            lemma_one_tag(T::Anudatta);
        } else {
            assert(acc1.to_set() =~= Set::<T>::empty());
        }
        if x2@.contains('^') {
            lemma_push_tag(acc1, T::Svarita);
        }
        assert(acc@.to_set() =~= accent_tags(x2@));
    }
    let x3 = without_char(&without_char(&x2, '\\'), '^');
    write_and_step(p, i, &x3, &acc, None);
    proof {
        lemma_became_trans(p0, p2, *p, i as int, x2@, g2, x3@, g2.union(accent_tags(x2@)));
    }
    Some(irit)
}

/// 1.3.3 and 1.3.4 on the term at `i`, whose upadesha is `uc`. Returns false where the final
/// it-letter has no tag or no sound is left to remove.
fn hal_stage(p: &mut Prakriya, i: usize, uc: &Vec<char>, irit: bool) -> (ok: bool)
    requires
        i < old(p).terms_seq().len(),
    ensures
        ({
            let t = old(p).terms_seq()[i as int];
            let s = hal_it_stage(uc@, irit, t.text@, t.tags@);
            &&& ok == s.2
            &&& term_became(*old(p), *final(p), i as int, s.0, s.1)
        }),
{
    let ghost p0 = *p;
    proof {
        lemma_became_refl(p0, i as int);
        crate::asiddhavat::lemma_hal();
    }
    let nu = uc.len();
    let hal = crate::sounds::s("hal");
    if nu > 0 && hal.contains_char(uc[nu - 1]) && !irit {
        assert(uc@.last() == uc@[nu - 1]);
        let vib = p.terms()[i].has_tag(T::Vibhakti);
        if !(vib && is_tusma_char(uc[nu - 1])) {
            let text = strings::chars_of(p.terms()[i].text.as_str());
            if !is_it_letter(uc[nu - 1]) || text.len() == 0 {
                return false;
            }
            let tag = it_tag(uc[nu - 1]);
            let x4 = sub_chars(&text, 0, text.len() - 1);
            let mut one: Vec<T> = Vec::new();
            one.push(tag);
            proof {
                lemma_one_tag(tag);
                assert(x4@ =~= text@.drop_last());
                assert(p0.terms_seq()[i as int].tags@.union(set![tag]) =~= p0.terms_seq()[
                    i as int].tags@.insert(tag));
            }
            write_and_step(p, i, &x4, &one, Some("1.3.3"));
        } else {
            write_and_step(p, i, &strings::chars_of(p.terms()[i].text.as_str()), &Vec::new(), Some("1.3.4"));
            proof {
                assert(p0.terms_seq()[i as int].tags@.union(Seq::<T>::empty().to_set()) =~= p0.terms_seq()[i as int].tags@);
            }
        }
    }
    true
}

/// 1.3.5 on the term at `i`.
fn prefix_stage(p: &mut Prakriya, i: usize)
    requires
        i < old(p).terms_seq().len(),
    ensures
        ({
            let t = old(p).terms_seq()[i as int];
            let s = prefix_it_stage(t.text@, t.tags@);
            term_became(*old(p), *final(p), i as int, s.0, s.1)
        }),
{
    let ghost t0 = old(p).terms_seq()[i as int];
    let mut text = strings::chars_of(p.terms()[i].text.as_str());
    let mut pre: Vec<T> = Vec::new();
    let ghost s5a = strip_it_prefix(t0.text@, t0.tags@, seq!['Y', 'i'], T::YIt);
    let ghost s5b = strip_it_prefix(s5a.0, s5a.1, seq!['w', 'u'], T::wvit);
    let ghost s5 = prefix_it_stage(t0.text@, t0.tags@);
    proof {
        assert(pre@.to_set() =~= Set::<T>::empty());
        assert(t0.tags@.union(Set::<T>::empty()) =~= t0.tags@);
    }
    if starts_with_chars(&text, 'Y', 'i') {
        text = sub_chars(&text, 2, text.len());
        let ghost before = pre@;
        pre.push(T::YIt);
        proof {
            lemma_push_tag(before, T::YIt);
        }
    }
    assert(text@ == s5a.0 && t0.tags@.union(pre@.to_set()) =~= s5a.1);
    if starts_with_chars(&text, 'w', 'u') {
        text = sub_chars(&text, 2, text.len());
        let ghost before = pre@;
        pre.push(T::wvit);
        proof {
            lemma_push_tag(before, T::wvit);
        }
    }
    assert(text@ == s5b.0 && t0.tags@.union(pre@.to_set()) =~= s5b.1);
    if starts_with_chars(&text, 'q', 'u') {
        text = sub_chars(&text, 2, text.len());
        let ghost before = pre@;
        pre.push(T::qvit);
        proof {
            lemma_push_tag(before, T::qvit);
        }
    }
    assert(text@ == s5.0 && t0.tags@.union(pre@.to_set()) =~= s5.1);
    write_and_step(p, i, &text, &pre, Some("1.3.5"));
}

/// Removes the first sound of the term at `i` as the it-letter that begins the upadesha `uc`,
/// and records `code`; false where that letter has no tag or the text is empty.
fn drop_adi_stage(p: &mut Prakriya, i: usize, uc: &Vec<char>, code: crate::prakriya::Rule) -> (ok:
    bool)
    requires
        i < old(p).terms_seq().len(),
    ensures
        ({
            let t = old(p).terms_seq()[i as int];
            let s = drop_adi_it(uc@, t.text@, t.tags@);
            &&& ok == s.2
            &&& term_became(*old(p), *final(p), i as int, s.0, s.1)
        }),
{
    proof {
        lemma_became_refl(*old(p), i as int);
    }
    let text = strings::chars_of(p.terms()[i].text.as_str());
    if uc.len() == 0 || !is_it_letter(uc[0]) || text.len() == 0 {
        return false;
    }
    let tag = it_tag(uc[0]);
    let x = sub_chars(&text, 1, text.len());
    let mut one: Vec<T> = Vec::new();
    one.push(tag);
    proof {
        lemma_one_tag(tag);
        assert(old(p).terms_seq()[i as int].tags@.union(set![tag]) =~= old(p).terms_seq()[
            i as int].tags@.insert(tag));
    }
    write_and_step(p, i, &x, &one, Some(code));
    true
}

/// 1.3.6 - 1.3.8 on the term at `i`, whose upadesha is `uc`.
fn pratyaya_stage(p: &mut Prakriya, i: usize, uc: &Vec<char>) -> (ok: bool)
    requires
        i < old(p).terms_seq().len(),
    ensures
        ({
            let t = old(p).terms_seq()[i as int];
            let s = pratyaya_it_stage(uc@, t.text@, t.tags@);
            &&& ok == s.2
            &&& term_became(*old(p), *final(p), i as int, s.0, s.1)
        }),
{
    let ghost p0 = *p;
    proof {
        lemma_became_refl(p0, i as int);
    }
    let nu = uc.len();
    if p.terms()[i].has_tag(T::Pratyaya) {
        if nu > 0 && uc[0] == 'z' {
            return drop_adi_stage(p, i, uc, "1.3.6");
        } else if nu > 0 && is_cutu_char(uc[0]) {
            // The sounds C, J, W and Q are replaced later in the grammar: removing them now
            // would leave those rules nothing to do.
            if uc[0] == 'C' || uc[0] == 'J' || uc[0] == 'W' || uc[0] == 'Q' {
                write_and_step(p, i, &strings::chars_of(p.terms()[i].text.as_str()), &Vec::new(), Some("1.3.7"));
                proof {
                    assert(p0.terms_seq()[i as int].tags@.union(Seq::<T>::empty().to_set()) =~= p0.terms_seq()[i as int].tags@);
                }
                return true;
            }
            return drop_adi_stage(p, i, uc, "1.3.7");
        } else {
            let text = strings::chars_of(p.terms()[i].text.as_str());
            if !p.terms()[i].has_tag(T::Taddhita) && text.len() > 0 && is_lashaku_char(text[0]) {
                // The first `l` of the lakaras stays, for 3.4.77.
                if !is_lakara_upadesha(uc) {
                    return drop_adi_stage(p, i, uc, "1.3.8");
                }
            }
        }
    }
    true
}

/// Runs the it-samjna rules on the term at `i`, if it has an upadesha (1.3.2 - 1.3.9): the
/// final `i~r` is an it (a varttika); the anunasika vowels are its (1.3.2), and the accent marks
/// go; a final consonant is an it (1.3.3), but not the `tu~ s m` of a vibhakti (1.3.4); the
/// initial `Yi`, `wu` and `qu` are its (1.3.5); and for a pratyaya, an initial `z` (1.3.6),
/// `cu~ wu~` (1.3.7, but not `C J W Q`) and `l S ku~` (1.3.8, but not the `l` of a lakara) are
/// its. Each it marks the term with its tag and is removed from the text (1.3.9). Returns an
/// error where the rules cannot run to the end (see `it_samjna_outcome`), leaving the term as
/// far as they came.
pub fn run(p: &mut Prakriya, i: usize) -> (r: Result<(), PrakriyaError>)
    ensures
        Prakriya::rewrote(*old(p), *final(p)),
        !has_upadesha_at(*old(p), i as int) ==> r is Ok && *final(p) == *old(p),
        has_upadesha_at(*old(p), i as int) ==> {
            let t = old(p).terms_seq()[i as int];
            let res = it_samjna_outcome(t.u->0@, t.text@, t.tags@);
            &&& term_became(*old(p), *final(p), i as int, res.0, res.1)
            &&& (r is Ok <==> res.2)
        },
{
    let ghost p0 = *p;
    proof {
        crate::prakriya::lemma_rewrote_refl(p0);
    }
    let upadesha = match p.get(i) {
        Some(t) => match &t.u {
            Some(x) => strings::string_from(x.as_str()),
            None => {
                return Ok(());
            },
        },
        None => {
            return Ok(());
        },
    };
    let ghost t0 = p0.terms_seq()[i as int];
    let uc = strings::chars_of(upadesha.as_str());
    assert(uc@ == t0.u->0@);
    proof {
        lemma_became_refl(p0, i as int);
    }
    let source = make_anunasika_pattern();
    let re = match pattern::compile(source.as_str()) {
        Some(re) => re,
        None => {
            return Err(PrakriyaError::new("the regex of anunasika vowels does not compile"));
        },
    };
    let irit = match anunasika_stage(p, i, &re) {
        Some(irit) => irit,
        None => {
            return Err(PrakriyaError::new("an anunasika match does not begin with an it-letter"));
        },
    };
    let ghost p3 = *p;
    let ghost t3 = p3.terms_seq()[i as int];
    if !hal_stage(p, i, &uc, irit) {
        proof {
            lemma_became_trans(p0, p3, *p, i as int, t3.text@, t3.tags@, p.terms_seq()[i as int].text@, p.terms_seq()[i as int].tags@);
        }
        return Err(PrakriyaError::new("no it-letter can be removed from the end"));
    }
    let ghost p4 = *p;
    let ghost t4 = p4.terms_seq()[i as int];
    proof {
        lemma_became_trans(p0, p3, p4, i as int, t3.text@, t3.tags@, t4.text@, t4.tags@);
    }
    prefix_stage(p, i);
    let ghost p5 = *p;
    let ghost t5 = p5.terms_seq()[i as int];
    proof {
        lemma_became_trans(p0, p4, p5, i as int, t4.text@, t4.tags@, t5.text@, t5.tags@);
    }
    let ok = pratyaya_stage(p, i, &uc);
    let ghost p6 = *p;
    let ghost t6 = p6.terms_seq()[i as int];
    proof {
        lemma_became_trans(p0, p5, p6, i as int, t5.text@, t5.tags@, t6.text@, t6.tags@);
    }
    if !ok {
        return Err(PrakriyaError::new("no it-letter can be removed from the start"));
    }

    // 1.3.9 tasya lopaH
    if !strings::str_eq(p.terms()[i].text.as_str(), upadesha.as_str()) {
        step_rule(p, "1.3.9");
        proof {
            assert(p.terms_seq() =~= p6.terms_seq().update(i as int, p.terms_seq()[i as int]));
            lemma_became_trans(p0, p6, *p, i as int, t6.text@, t6.tags@, t6.text@, t6.tags@);
        }
    }
    Ok(())
}

} // verus!
