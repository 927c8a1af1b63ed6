//! Sounds and sets of sounds.
//!
//! Sounds are SLP1 chars. A `SoundSet` is a set of sounds and a `SoundMap` maps sounds to
//! sounds; both cover the chars below 256, as a table with one entry per such char.
use vstd::prelude::*;

verus! {

/// A single sound.
pub type Sound = char;

/// Whether `c` can index the 256-entry tables that back `SoundSet` and `SoundMap`.
pub open spec fn in_table(c: char) -> bool {
    (c as u32) < 256
}

proof fn lemma_code(c: char, d: char)
    ensures
        (c as u32) as int == c as int,
        c != d ==> (c as u32) != (d as u32),
{
}

/// Whether every char of `s` can index a sound table.
pub open spec fn all_in_table(s: Seq<char>) -> bool {
    forall|i: int| 0 <= i < s.len() ==> in_table(#[trigger] s[i])
}

/// The sounds in Paninian order, the order in which `SoundSet::to_string` lists them.
pub open spec fn panini_order() -> Seq<char> {
    seq![
        'a', 'A', 'i', 'I', 'u', 'U', 'f', 'F', 'x', 'X', 'e', 'E', 'o', 'O', 'M', 'H', 'k', 'K',
        'g', 'G', 'N', 'c', 'C', 'j', 'J', 'Y', 'w', 'W', 'q', 'Q', 'R', 't', 'T', 'd', 'D', 'n',
        'p', 'P', 'b', 'B', 'm', 'y', 'r', 'l', 'v', 'S', 'z', 's', 'h',
    ]
}

/// The members of `order` that are in `set`, in the order of `order`.
pub open spec fn filter_in(order: Seq<char>, set: Set<char>) -> Seq<char>
    decreases order.len(),
{
    if order.len() == 0 {
        Seq::empty()
    } else {
        let rest = filter_in(order.drop_last(), set);
        if set.contains(order.last()) {
            rest.push(order.last())
        } else {
            rest
        }
    }
}

fn panini_order_vec() -> (v: Vec<char>)
    ensures
        v@ == panini_order(),
{
    let v = vec![
        'a', 'A', 'i', 'I', 'u', 'U', 'f', 'F', 'x', 'X', 'e', 'E', 'o', 'O', 'M', 'H', 'k', 'K',
        'g', 'G', 'N', 'c', 'C', 'j', 'J', 'Y', 'w', 'W', 'q', 'Q', 'R', 't', 'T', 'd', 'D', 'n',
        'p', 'P', 'b', 'B', 'm', 'y', 'r', 'l', 'v', 'S', 'z', 's', 'h',
    ];
    assert(v@ =~= panini_order());
    v
}

/// A set of sounds.
pub struct SoundSet {
    members: Vec<bool>,
}

impl SoundSet {
    /// Whether the table that backs the set has its full size.
    pub closed spec fn wf(&self) -> bool {
        self.members@.len() == 256
    }
}

impl View for SoundSet {
    type V = Set<char>;

    closed spec fn view(&self) -> Set<char> {
        Set::new(|c: char| (c as u32) < self.members@.len() && self.members@[(c as u32) as int])
    }
}

impl SoundSet {
    fn empty() -> (r: Self)
        ensures
            r.wf(),
            r@ == Set::<char>::empty(),
    {
        let mut members: Vec<bool> = Vec::new();
        let mut i: usize = 0;
        while i < 256
            invariant
                i <= 256,
                members@.len() == i,
                forall|k: int| 0 <= k < i ==> !members@[k],
            decreases 256 - i,
        {
            members.push(false);
            i = i + 1;
        }
        let r = SoundSet { members };
        assert(r@ =~= Set::<char>::empty());
        r
    }

    fn add(&mut self, c: char)
        requires
            old(self).wf(),
            in_table(c),
        ensures
            final(self).wf(),
            final(self)@ == old(self)@.insert(c),
    {
        let i = c as u32 as usize;
        self.members.set(i, true);
        assert(self@ =~= old(self)@.insert(c)) by {
            assert forall|d: char| #[trigger] self@.contains(d) == old(self)@.insert(c).contains(
                d,
            ) by {
                if in_table(d) && d != c {
                    lemma_code(d, c);
                }
            }
        }
    }

    fn add_all(&mut self, other: &SoundSet)
        requires
            old(self).wf(),
            other.wf(),
        ensures
            final(self).wf(),
            final(self)@ == old(self)@.union(other@),
    {
        let mut i: usize = 0;
        while i < 256
            invariant
                i <= 256,
                self.members@.len() == 256,
                other.members@.len() == 256,
                forall|k: int|
                    0 <= k < 256 ==> #[trigger] self.members@[k] == (old(self).members@[k] || (k
                        < i && other.members@[k])),
            decreases 256 - i,
        {
            if other.members[i] {
                self.members.set(i, true);
            }
            i = i + 1;
        }
        assert(self@ =~= old(self)@.union(other@));
    }

    /// Creates the set of the sounds in `string`.
    pub fn new(string: &str) -> (r: Self)
        requires
            all_in_table(string@),
        ensures
            r.wf(),
            r@ == string@.to_set(),
    {
        let mut res = SoundSet::empty();
        let n = string.unicode_len();
        let mut i: usize = 0;
        while i < n
            invariant
                n == string@.len(),
                i <= n,
                all_in_table(string@),
                res.wf(),
                res@ == string@.subrange(0, i as int).to_set(),
            decreases n - i,
        {
            let c = string.get_char(i);
            res.add(c);
            assert(string@.subrange(0, (i + 1) as int) == string@.subrange(0, i as int).push(c));
            proof {
                let pre = string@.subrange(0, i as int);
                let post = string@.subrange(0, (i + 1) as int);
                assert forall|d: char| #[trigger] post.contains(d) <==> (pre.contains(d) || d == c) by {
                    if pre.contains(d) {
                        let k = choose|k: int| 0 <= k < pre.len() && pre[k] == d;
                        assert(post[k] == d);
                    }
                    if d == c {
                        assert(post[i as int] == d);
                    }
                    if post.contains(d) {
                        let k = choose|k: int| 0 <= k < post.len() && post[k] == d;
                        if k < i {
                            assert(pre[k] == d);
                        }
                    }
                }
                assert(res@ =~= post.to_set());
            }
            i = i + 1;
        }
        assert(string@.subrange(0, n as int) == string@);
        res
    }

    /// Returns whether `c` is in the set.
    pub fn contains_char(&self, c: Sound) -> (r: bool)
        ensures
            r == self@.contains(c),
    {
        let code = c as u32 as usize;
        code < self.members.len() && self.members[code]
    }

    /// Returns whether `o` is some sound in the set.
    pub fn contains_opt(&self, o: Option<char>) -> (r: bool)
        ensures
            r == (o is Some && self@.contains(o->0)),
    {
        if let Some(c) = o {
            self.contains_char(c)
        } else {
            false
        }
    }

    /// Lists the sounds of the set in Paninian order.
    pub fn to_string(&self) -> (r: String)
        requires
            self.wf(),
        ensures
            r@ == filter_in(panini_order(), self@),
    {
        let order = panini_order_vec();
        let mut ret = String::new();
        let mut i: usize = 0;
        while i < order.len()
            invariant
                i <= order@.len(),
                order@ == panini_order(),
                self.wf(),
                ret@ == filter_in(order@.subrange(0, i as int), self@),
            decreases order@.len() - i,
        {
            let c = order[i];
            assert(order@.subrange(0, (i + 1) as int).drop_last() == order@.subrange(0, i as int));
            assert(in_table(c));
            if self.contains_char(c) {
                crate::strings::push_char(&mut ret, c);
            }
            i = i + 1;
        }
        assert(order@.subrange(0, order@.len() as int) == order@);
        ret
    }
}

/// A mapping from sounds to sounds.
#[derive(Debug, PartialEq, Eq)]
pub struct SoundMap {
    values: Vec<u8>,
}

/// The table entry that `SoundMap::insert` stores for the value `val`: its low eight bits.
pub open spec fn stored_value(val: char) -> u8 {
    ((val as u32) % 256) as u8
}

impl SoundMap {
    /// Whether the table that backs the mapping has its full size.
    pub closed spec fn wf(&self) -> bool {
        self.values@.len() == 256
    }
}

impl View for SoundMap {
    type V = Map<char, char>;

    closed spec fn view(&self) -> Map<char, char> {
        Map::new(
            |c: char| (c as u32) < self.values@.len() && self.values@[(c as u32) as int] != 0,
            |c: char| self.values@[(c as u32) as int] as char,
        )
    }
}

impl SoundMap {
    /// Creates an empty mapping.
    pub fn new() -> (r: Self)
        ensures
            r.wf(),
            r@ == Map::<char, char>::empty(),
    {
        let mut values: Vec<u8> = Vec::new();
        let mut i: usize = 0;
        while i < 256
            invariant
                i <= 256,
                values@.len() == i,
                forall|k: int| 0 <= k < i ==> values@[k] == 0,
            decreases 256 - i,
        {
            values.push(0);
            i = i + 1;
        }
        let r = SoundMap { values };
        assert(r@ =~= Map::<char, char>::empty());
        r
    }

    /// Maps `key` to `val`. The table keeps the low eight bits of `val`; a value whose low
    /// eight bits are zero removes `key`.
    pub fn insert(&mut self, key: Sound, val: Sound)
        requires
            old(self).wf(),
            in_table(key),
        ensures
            final(self).wf(),
            final(self)@ == if stored_value(val) == 0 {
                old(self)@.remove(key)
            } else {
                old(self)@.insert(key, stored_value(val) as char)
            },
    {
        let v: u8 = (val as u32 % 256) as u8;
        self.values.set(key as u32 as usize, v);
        proof {
            let expected = if stored_value(val) == 0 {
                old(self)@.remove(key)
            } else {
                old(self)@.insert(key, stored_value(val) as char)
            };
            assert forall|d: char| #[trigger] self@.dom().contains(d) == expected.dom().contains(
                d,
            ) by {
                if in_table(d) && d != key {
                    lemma_code(d, key);
                }
            }
            assert forall|d: char| #[trigger] self@.dom().contains(d) implies self@[d]
                == expected[d] by {
                if d != key {
                    lemma_code(d, key);
                }
            }
            assert(self@ =~= expected);
        }
    }

    /// Returns whether `key` has a value.
    pub fn contains(&self, key: Sound) -> (r: bool)
        requires
            self.wf(),
        ensures
            r == self@.dom().contains(key),
    {
        let code = key as u32;
        code < 256 && self.values[code as usize] != 0
    }

    /// Returns the value of `key`, if any.
    pub fn get(&self, key: Sound) -> (r: Option<Sound>)
        requires
            self.wf(),
        ensures
            r == if self@.dom().contains(key) {
                Some(self@[key])
            } else {
                None
            },
    {
        let code = key as u32;
        if code >= 256 {
            return None;
        }
        let v = self.values[code as usize];
        if v == 0 {
            None
        } else {
            Some(v as char)
        }
    }
}

impl Default for SoundMap {
    fn default() -> (r: Self)
        ensures
            r.wf(),
            r@ == Map::<char, char>::empty(),
    {
        Self::new()
    }
}

impl SoundSet {
    fn from_chars(v: &[char]) -> (r: Self)
        requires
            all_in_table(v@),
        ensures
            r.wf(),
            r@ == v@.to_set(),
    {
        let mut res = SoundSet::empty();
        let mut i: usize = 0;
        while i < v.len()
            invariant
                i <= v@.len(),
                all_in_table(v@),
                res.wf(),
                res@ == v@.subrange(0, i as int).to_set(),
            decreases v@.len() - i,
        {
            let c = v[i];
            res.add(c);
            proof {
                let pre = v@.subrange(0, i as int);
                let post = v@.subrange(0, (i + 1) as int);
                assert forall|d: char| #[trigger] post.contains(d) <==> (pre.contains(d) || d == c) by {
                    if pre.contains(d) {
                        let k = choose|k: int| 0 <= k < pre.len() && pre[k] == d;
                        assert(post[k] == d);
                    }
                    if d == c {
                        assert(post[i as int] == d);
                    }
                    if post.contains(d) {
                        let k = choose|k: int| 0 <= k < post.len() && post[k] == d;
                        if k < i {
                            assert(pre[k] == d);
                        }
                    }
                }
                assert(res@ =~= post.to_set());
            }
            i = i + 1;
        }
        assert(v@.subrange(0, v@.len() as int) == v@);
        res
    }
}

/// Something that a single sound can match: a sound or a set of sounds.
pub trait Pattern {
    /// Whether the pattern accepts the sound `s`.
    spec fn accepts(&self, s: Sound) -> bool;

    /// Whether `matches` can test the sound `s`.
    spec fn can_test(&self, s: Sound) -> bool;

    /// Returns whether this pattern includes the given sound.
    fn matches(&self, s: Sound) -> (r: bool)
        requires
            self.can_test(s),
        ensures
            r == self.accepts(s),
    ;
}

impl Pattern for char {
    open spec fn accepts(&self, s: Sound) -> bool {
        *self == s
    }

    open spec fn can_test(&self, s: Sound) -> bool {
        true
    }

    fn matches(&self, s: Sound) -> (r: bool) {
        *self == s
    }
}

impl Pattern for SoundSet {
    open spec fn accepts(&self, s: Sound) -> bool {
        self@.contains(s)
    }

    open spec fn can_test(&self, s: Sound) -> bool {
        true
    }

    fn matches(&self, s: Sound) -> (r: bool) {
        self.contains_char(s)
    }
}

/// The short vowels.
pub open spec fn spec_is_hrasva(c: Sound) -> bool {
    c == 'a' || c == 'i' || c == 'u' || c == 'f' || c == 'x'
}

/// The long vowels, counting the diphthongs.
pub open spec fn spec_is_dirgha(c: Sound) -> bool {
    c == 'A' || c == 'I' || c == 'U' || c == 'F' || c == 'X' || c == 'e' || c == 'E' || c == 'o'
        || c == 'O'
}

/// The vowels: the pratyahara `ac`.
pub open spec fn spec_is_ac(c: Sound) -> bool {
    spec_is_hrasva(c) || spec_is_dirgha(c)
}

/// The consonants: the pratyahara `hal`.
pub open spec fn spec_is_hal(c: Sound) -> bool {
    c == 'k' || c == 'K' || c == 'g' || c == 'G' || c == 'N' || c == 'c' || c == 'C' || c == 'j'
        || c == 'J' || c == 'Y' || c == 'w' || c == 'W' || c == 'q' || c == 'Q' || c == 'R' || c
        == 't' || c == 'T' || c == 'd' || c == 'D' || c == 'n' || c == 'p' || c == 'P' || c == 'b'
        || c == 'B' || c == 'm' || c == 'y' || c == 'r' || c == 'l' || c == 'v' || c == 'S' || c
        == 'z' || c == 's' || c == 'h'
}

/// Returns whether `c` is a short vowel.
pub fn is_hrasva(c: Sound) -> (r: bool)
    ensures
        r == spec_is_hrasva(c),
{
    matches!(c, 'a' | 'i' | 'u' | 'f' | 'x')
}

/// Returns whether `c` is a long vowel.
pub fn is_dirgha(c: Sound) -> (r: bool)
    ensures
        r == spec_is_dirgha(c),
{
    matches!(c, 'A' | 'I' | 'U' | 'F' | 'X' | 'e' | 'E' | 'o' | 'O')
}

/// Returns whether `c` is one of the guna vowels.
pub fn is_guna(c: Sound) -> (r: bool)
    ensures
        r == (c == 'a' || c == 'e' || c == 'o'),
{
    matches!(c, 'a' | 'e' | 'o')
}

/// Returns whether `c` is a vrddhi vowel (1.1.1, vṛddhir ādaic).
pub fn is_vrddhi(c: Sound) -> (r: bool)
    ensures
        r == (c == 'A' || c == 'E' || c == 'O'),
{
    c == 'A' || c == 'E' || c == 'O'
}

/// Returns whether `c` is a vowel.
pub fn is_ac(c: Sound) -> (r: bool)
    ensures
        r == spec_is_ac(c),
{
    is_hrasva(c) || is_dirgha(c)
}

/// Returns whether `c` is a consonant.
pub fn is_hal(c: Sound) -> (r: bool)
    ensures
        r == spec_is_hal(c),
{
    matches!(
        c,
        'k' | 'K' | 'g' | 'G' | 'N' | 'c' | 'C' | 'j' | 'J' | 'Y' | 'w' | 'W' | 'q' | 'Q' | 'R' | 't'
            | 'T' | 'd' | 'D' | 'n' | 'p' | 'P' | 'b' | 'B' | 'm' | 'y' | 'r' | 'l' | 'v' | 'S'
            | 'z' | 's' | 'h'
    )
}

/// Whether `text` begins with two consonants.
pub open spec fn spec_is_samyogadi(text: Seq<char>) -> bool {
    text.len() >= 2 && spec_is_hal(text[0]) && spec_is_hal(text[1])
}

/// Whether `text` ends with two consonants.
pub open spec fn spec_is_samyoganta(text: Seq<char>) -> bool {
    text.len() >= 2 && spec_is_hal(text[text.len() - 1]) && spec_is_hal(text[text.len() - 2])
}

/// Returns whether `text` begins with a conjunct consonant.
pub fn is_samyogadi(text: &str) -> (r: bool)
    ensures
        r == spec_is_samyogadi(text@),
{
    let n = text.unicode_len();
    n >= 2 && is_hal(text.get_char(0)) && is_hal(text.get_char(1))
}

/// Returns whether `text` ends with a conjunct consonant.
pub fn is_samyoganta(text: &str) -> (r: bool)
    ensures
        r == spec_is_samyoganta(text@),
{
    let n = text.unicode_len();
    n >= 2 && is_hal(text.get_char(n - 1)) && is_hal(text.get_char(n - 2))
}

/// The guna substitute of a vowel (1.1.2, 1.1.51), if it has one.
pub open spec fn spec_to_guna(c: Sound) -> Option<Seq<char>> {
    if c == 'i' || c == 'I' {
        Some(seq!['e'])
    } else if c == 'u' || c == 'U' {
        Some(seq!['o'])
    } else if c == 'f' || c == 'F' {
        Some(seq!['a', 'r'])
    } else if c == 'x' || c == 'X' {
        Some(seq!['a', 'l'])
    } else {
        None
    }
}

/// The vrddhi substitute of a vowel (1.1.1, 1.1.51), if it has one.
pub open spec fn spec_to_vrddhi(c: Sound) -> Option<Seq<char>> {
    if c == 'a' || c == 'A' {
        Some(seq!['A'])
    } else if c == 'i' || c == 'I' || c == 'e' || c == 'E' {
        Some(seq!['E'])
    } else if c == 'u' || c == 'U' || c == 'o' || c == 'O' {
        Some(seq!['O'])
    } else if c == 'f' || c == 'F' {
        Some(seq!['A', 'r'])
    } else if c == 'x' || c == 'X' {
        Some(seq!['A', 'l'])
    } else {
        None
    }
}

/// The short counterpart of a vowel (1.1.48), if it has one.
pub open spec fn spec_to_hrasva(c: Sound) -> Option<Sound> {
    if c == 'a' || c == 'A' {
        Some('a')
    } else if c == 'i' || c == 'I' || c == 'e' || c == 'E' {
        Some('i')
    } else if c == 'u' || c == 'U' || c == 'o' || c == 'O' {
        Some('u')
    } else if c == 'f' || c == 'F' {
        Some('f')
    } else if c == 'x' || c == 'X' {
        Some('x')
    } else {
        None
    }
}

/// The long counterpart of a vowel, if it has one.
pub open spec fn spec_to_dirgha(c: Sound) -> Option<Sound> {
    if c == 'a' || c == 'A' {
        Some('A')
    } else if c == 'i' || c == 'I' {
        Some('I')
    } else if c == 'u' || c == 'U' {
        Some('U')
    } else if c == 'f' || c == 'F' {
        Some('F')
    } else if c == 'x' || c == 'X' {
        Some('X')
    } else if c == 'e' || c == 'E' || c == 'o' || c == 'O' {
        Some(c)
    } else {
        None
    }
}

/// A short vowel made long and then short again is the vowel it was (1.1.48 and 1.2.27).
pub proof fn lemma_dirgha_hrasva_round_trip(c: Sound)
    requires
        spec_is_hrasva(c),
    ensures
        spec_to_dirgha(c) matches Some(d) && spec_is_dirgha(d) && spec_to_hrasva(d) == Some(c),
{
}

/// Every vowel has a short counterpart, and it is short.
pub proof fn lemma_hrasva_of_vowel(c: Sound)
    requires
        spec_is_ac(c),
    ensures
        spec_to_hrasva(c) matches Some(h) && spec_is_hrasva(h),
{
}

/// Guna and vrddhi (1.1.1, 1.1.2, 1.1.51) depend only on the class of a vowel, not on its length:
/// a vowel has the guna and the vrddhi of its short counterpart. The guna begins with a guna
/// vowel (a, e, o) and the vrddhi with a vrddhi vowel (A, E, O); where that vowel is not `a` /
/// `A`, it stays in the class of the replaced vowel (e and E for i, o and O for u); where it is,
/// `r` follows for f and `l` for x. Every short vowel but `a` has a guna.
pub proof fn lemma_guna_vrddhi_by_class(c: Sound)
    ensures
        spec_to_guna(c) is Some ==> {
            let g = spec_to_guna(c)->0;
            &&& spec_is_ac(c)
            &&& spec_to_guna(c) == spec_to_guna(spec_to_hrasva(c)->0)
            &&& g.len() >= 1 && (g[0] == 'a' || g[0] == 'e' || g[0] == 'o')
            &&& g[0] != 'a' ==> g.len() == 1 && spec_to_hrasva(g[0]) == spec_to_hrasva(c)
            &&& g[0] == 'a' ==> g.len() == 2 && (g[1] == 'r' <==> spec_to_hrasva(c) == Some('f'))
                && (g[1] == 'l' <==> spec_to_hrasva(c) == Some('x'))
        },
        spec_to_vrddhi(c) is Some ==> {
            let v = spec_to_vrddhi(c)->0;
            &&& spec_is_ac(c)
            &&& spec_to_vrddhi(c) == spec_to_vrddhi(spec_to_hrasva(c)->0)
            &&& v.len() >= 1 && (v[0] == 'A' || v[0] == 'E' || v[0] == 'O')
            &&& v[0] != 'A' ==> v.len() == 1 && spec_to_hrasva(v[0]) == spec_to_hrasva(c)
            &&& v[0] == 'A' ==> (v.len() == 2 <==> (spec_to_hrasva(c) == Some('f')
                || spec_to_hrasva(c) == Some('x')))
        },
        spec_is_hrasva(c) && c != 'a' ==> spec_to_guna(c) is Some,
{
}

/// Returns the guna substitute of `s`, if any.
pub fn to_guna(s: Sound) -> (r: Option<&'static str>)
    ensures
        match r {
            Some(x) => spec_to_guna(s) == Some(x@),
            None => spec_to_guna(s) is None,
        },
{
    let res = match s {
        'i' | 'I' => {
            proof {
                reveal_strlit("e");
            }
            "e"
        },
        'u' | 'U' => {
            proof {
                reveal_strlit("o");
            }
            "o"
        },
        'f' | 'F' => {
            proof {
                reveal_strlit("ar");
            }
            "ar"
        },
        'x' | 'X' => {
            proof {
                reveal_strlit("al");
            }
            "al"
        },
        _ => return None,
    };
    Some(res)
}

/// Returns the vrddhi substitute of `s`, if any.
pub fn to_vrddhi(s: Sound) -> (r: Option<&'static str>)
    ensures
        match r {
            Some(x) => spec_to_vrddhi(s) == Some(x@),
            None => spec_to_vrddhi(s) is None,
        },
{
    let res = match s {
        'a' | 'A' => {
            proof {
                reveal_strlit("A");
            }
            "A"
        },
        'i' | 'I' => {
            proof {
                reveal_strlit("E");
            }
            "E"
        },
        'u' | 'U' => {
            proof {
                reveal_strlit("O");
            }
            "O"
        },
        'f' | 'F' => {
            proof {
                reveal_strlit("Ar");
            }
            "Ar"
        },
        'x' | 'X' => {
            proof {
                reveal_strlit("Al");
            }
            "Al"
        },
        'e' | 'E' => {
            proof {
                reveal_strlit("E");
            }
            "E"
        },
        'o' | 'O' => {
            proof {
                reveal_strlit("O");
            }
            "O"
        },
        _ => return None,
    };
    Some(res)
}

/// Returns the short counterpart of `s` (1.1.48), if any.
pub fn to_hrasva(s: Sound) -> (r: Option<Sound>)
    ensures
        r == spec_to_hrasva(s),
{
    let res = match s {
        'a' | 'A' => 'a',
        'i' | 'I' => 'i',
        'u' | 'U' => 'u',
        'f' | 'F' => 'f',
        'x' | 'X' => 'x',
        'e' | 'E' => 'i',
        'o' | 'O' => 'u',
        _ => return None,
    };
    Some(res)
}

/// Returns the long counterpart of `s`, if any.
pub fn to_dirgha(s: Sound) -> (r: Option<Sound>)
    ensures
        r == spec_to_dirgha(s),
{
    let res = match s {
        'a' | 'A' => 'A',
        'i' | 'I' => 'I',
        'u' | 'U' => 'U',
        'f' | 'F' => 'F',
        'x' | 'X' => 'X',
        'e' => 'e',
        'E' => 'E',
        'o' => 'o',
        'O' => 'O',
        _ => return None,
    };
    Some(res)
}

/// The sounds that are savarna with `c` (1.1.9, 1.1.69), listing `c` itself where it has
/// savarnas.
pub open spec fn spec_savarna(c: Sound) -> Seq<char> {
    if c == 'a' || c == 'A' {
        seq!['a', 'A']
    } else if c == 'i' || c == 'I' {
        seq!['i', 'I']
    } else if c == 'u' || c == 'U' {
        seq!['u', 'U']
    } else if c == 'f' || c == 'F' || c == 'x' || c == 'X' {
        seq!['f', 'F', 'x', 'X']
    } else if c == 'k' || c == 'K' || c == 'g' || c == 'G' || c == 'N' {
        seq!['k', 'K', 'g', 'G', 'N']
    } else if c == 'c' || c == 'C' || c == 'j' || c == 'J' || c == 'Y' {
        seq!['c', 'C', 'j', 'J', 'Y']
    } else if c == 'w' || c == 'W' || c == 'q' || c == 'Q' || c == 'R' {
        seq!['w', 'W', 'q', 'Q', 'R']
    } else if c == 't' || c == 'T' || c == 'd' || c == 'D' || c == 'n' {
        seq!['t', 'T', 'd', 'D', 'n']
    } else if c == 'p' || c == 'P' || c == 'b' || c == 'B' || c == 'm' {
        seq!['p', 'P', 'b', 'B', 'm']
    } else {
        Seq::empty()
    }
}

/// Returns the set of sounds that are savarna with `c`.
pub fn savarna(c: Sound) -> (r: SoundSet)
    ensures
        r.wf(),
        r@ == spec_savarna(c).to_set(),
{
    let sounds: Vec<char> = match c {
        'a' | 'A' => vec!['a', 'A'],
        'i' | 'I' => vec!['i', 'I'],
        'u' | 'U' => vec!['u', 'U'],
        'f' | 'F' | 'x' | 'X' => vec!['f', 'F', 'x', 'X'],
        'k' | 'K' | 'g' | 'G' | 'N' => vec!['k', 'K', 'g', 'G', 'N'],
        'c' | 'C' | 'j' | 'J' | 'Y' => vec!['c', 'C', 'j', 'J', 'Y'],
        'w' | 'W' | 'q' | 'Q' | 'R' => vec!['w', 'W', 'q', 'Q', 'R'],
        't' | 'T' | 'd' | 'D' | 'n' => vec!['t', 'T', 'd', 'D', 'n'],
        'p' | 'P' | 'b' | 'B' | 'm' => vec!['p', 'P', 'b', 'B', 'm'],
        _ => Vec::new(),
    };
    assert(sounds@ =~= spec_savarna(c));
    SoundSet::from_chars(sounds.as_slice())
}

/// Returns whether `y` is one of the savarna sounds of `x` that `savarna` lists.
pub fn is_savarna(x: Sound, y: Sound) -> (r: bool)
    ensures
        r == spec_savarna(x).contains(y),
{
    let sounds = savarna(x);
    sounds.contains_char(y)
}

/// A sutra of the Shiva Sutras: its sounds and its final it-letter.
struct Sutra {
    sounds: String,
    it: char,
}

impl Sutra {
    fn new(sounds: &str, it: char) -> (r: Self)
        ensures
            r.sounds@ == sounds@,
            r.it == it,
    {
        Sutra { sounds: crate::strings::string_from(sounds), it }
    }
}

/// The fourteen Shiva Sutras, each as its sounds and its it-letter.
pub open spec fn shiva_sutras() -> Seq<(Seq<char>, char)> {
    seq![
        (seq!['a', 'i', 'u'], 'R'),
        (seq!['f', 'x'], 'k'),
        (seq!['e', 'o'], 'N'),
        (seq!['E', 'O'], 'c'),
        (seq!['h', 'y', 'v', 'r'], 'w'),
        (seq!['l'], 'R'),
        (seq!['Y', 'm', 'N', 'R', 'n'], 'm'),
        (seq!['J', 'B'], 'Y'),
        (seq!['G', 'Q', 'D'], 'z'),
        (seq!['j', 'b', 'g', 'q', 'd'], 'S'),
        (seq!['K', 'P', 'C', 'W', 'T', 'c', 'w', 't'], 'v'),
        (seq!['k', 'p'], 'y'),
        (seq!['S', 'z', 's'], 'r'),
        (seq!['h'], 'l'),
    ]
}

spec fn sutras_match(v: Seq<Sutra>) -> bool {
    v.len() == shiva_sutras().len() && forall|k: int|
        0 <= k < v.len() ==> (#[trigger] v[k]).sounds@ == shiva_sutras()[k].0 && v[k].it
            == shiva_sutras()[k].1
}

fn create_shiva_sutras() -> (v: Vec<Sutra>)
    ensures
        sutras_match(v@),
{
    proof {
        reveal_strlit("aiu");
        reveal_strlit("fx");
        reveal_strlit("eo");
        reveal_strlit("EO");
        reveal_strlit("hyvr");
        reveal_strlit("l");
        reveal_strlit("YmNRn");
        reveal_strlit("JB");
        reveal_strlit("GQD");
        reveal_strlit("jbgqd");
        reveal_strlit("KPCWTcwt");
        reveal_strlit("kp");
        reveal_strlit("Szs");
        reveal_strlit("h");
    }
    let v = vec![
        Sutra::new("aiu", 'R'),
        Sutra::new("fx", 'k'),
        Sutra::new("eo", 'N'),
        Sutra::new("EO", 'c'),
        Sutra::new("hyvr", 'w'),
        Sutra::new("l", 'R'),
        Sutra::new("YmNRn", 'm'),
        Sutra::new("JB", 'Y'),
        Sutra::new("GQD", 'z'),
        Sutra::new("jbgqd", 'S'),
        Sutra::new("KPCWTcwt", 'v'),
        Sutra::new("kp", 'y'),
        Sutra::new("Szs", 'r'),
        Sutra::new("h", 'l'),
    ];
    assert(v@[0].sounds@ =~= seq!['a', 'i', 'u']);
    assert(v@[1].sounds@ =~= seq!['f', 'x']);
    assert(v@[2].sounds@ =~= seq!['e', 'o']);
    assert(v@[3].sounds@ =~= seq!['E', 'O']);
    assert(v@[4].sounds@ =~= seq!['h', 'y', 'v', 'r']);
    assert(v@[5].sounds@ =~= seq!['l']);
    assert(v@[6].sounds@ =~= seq!['Y', 'm', 'N', 'R', 'n']);
    assert(v@[7].sounds@ =~= seq!['J', 'B']);
    assert(v@[8].sounds@ =~= seq!['G', 'Q', 'D']);
    assert(v@[9].sounds@ =~= seq!['j', 'b', 'g', 'q', 'd']);
    assert(v@[10].sounds@ =~= seq!['K', 'P', 'C', 'W', 'T', 'c', 'w', 't']);
    assert(v@[11].sounds@ =~= seq!['k', 'p']);
    assert(v@[12].sounds@ =~= seq!['S', 'z', 's']);
    assert(v@[13].sounds@ =~= seq!['h']);
    v
}

/// The first sutra, at `k` or later, whose sounds include `c`; 14 where there is none.
pub open spec fn sutra_with(c: char, k: int) -> int
    decreases 14 - k,
{
    if k >= 14 || k < 0 {
        14
    } else if shiva_sutras()[k].0.contains(c) {
        k
    } else {
        sutra_with(c, k + 1)
    }
}

/// The first sutra, at `k` or later, whose it-letter is `it`; 14 where there is none.
pub open spec fn sutra_ending_in(it: char, k: int) -> int
    decreases 14 - k,
{
    if k >= 14 || k < 0 {
        14
    } else if shiva_sutras()[k].1 == it {
        k
    } else {
        sutra_ending_in(it, k + 1)
    }
}

/// The first index, at `j` or later, at which `s` holds `c`; `s.len()` where there is none.
pub open spec fn index_from(s: Seq<char>, c: char, j: int) -> int
    decreases s.len() - j,
{
    if j >= s.len() || j < 0 {
        s.len() as int
    } else if s[j] == c {
        j
    } else {
        index_from(s, c, j + 1)
    }
}

/// The last sutra of the pratyahara that starts in sutra `start` and ends with the it-letter
/// `it`; `second` asks for the second sutra with that it-letter (as in `iR2`). Where the
/// it-letter does not follow, the pratyahara runs to the last sutra.
pub open spec fn pratyahara_end(start: int, it: char, second: bool) -> int {
    let k1 = sutra_ending_in(it, start);
    if k1 >= 14 {
        13
    } else if !second {
        k1
    } else {
        let k2 = sutra_ending_in(it, k1 + 1);
        if k2 >= 14 {
            13
        } else {
            k2
        }
    }
}

/// Whether `c` is the sound at `(k, j)` of the Shiva Sutras or, for a short vowel there, its
/// long counterpart.
pub open spec fn sound_or_long_at(k: int, j: int, c: char) -> bool {
    let x = shiva_sutras()[k].0[j];
    x == c || (spec_is_hrasva(x) && spec_to_dirgha(x) == Some(c))
}

/// The sounds of the pratyahara that starts with the sound `first` and ends with the it-letter
/// `it`, counting the long vowels that the short vowels of the sutras stand for.
pub open spec fn pratyahara_sounds(first: char, it: char, second: bool) -> Set<char> {
    let k0 = sutra_with(first, 0);
    let j0 = index_from(shiva_sutras()[k0].0, first, 0);
    let end = pratyahara_end(k0, it, second);
    Set::new(
        |c: char|
            exists|k: int, j: int|
                k0 <= k <= end && 0 <= j < shiva_sutras()[k].0.len() && (k > k0 || j >= j0)
                    && #[trigger] sound_or_long_at(k, j, c),
    )
}

/// Whether the pratyahara named by `name` starts with a sound of the Shiva Sutras.
pub open spec fn names_pratyahara(name: Seq<char>) -> bool {
    name.len() >= 1 && sutra_with(name[0], 0) < 14
}

/// Whether `name` ends with `R2`, which marks the second `R`.
pub open spec fn uses_second_n(name: Seq<char>) -> bool {
    name.len() >= 2 && name[name.len() - 2] == 'R' && name[name.len() - 1] == '2'
}

/// The sounds of the pratyahara `name`, such as `ac`, `hal` or `iR2`.
pub open spec fn spec_pratyahara(name: Seq<char>) -> Set<char> {
    let second = uses_second_n(name);
    let it = if second {
        'R'
    } else {
        name[name.len() - 1]
    };
    pratyahara_sounds(name[0], it, second)
}

proof fn lemma_sounds_in_table(k: int, j: int)
    requires
        0 <= k < 14,
        0 <= j < shiva_sutras()[k].0.len(),
    ensures
        in_table(shiva_sutras()[k].0[j]),
        spec_is_hrasva(shiva_sutras()[k].0[j]) ==> in_table(
            spec_to_dirgha(shiva_sutras()[k].0[j])->0,
        ),
{
}

fn find_sutra_with(sutras: &Vec<Sutra>, c: char) -> (r: (usize, usize))
    requires
        sutras_match(sutras@),
    ensures
        r.0 == sutra_with(c, 0),
        r.0 < 14 ==> r.1 == index_from(shiva_sutras()[r.0 as int].0, c, 0),
{
    let mut k: usize = 0;
    while k < sutras.len()
        invariant
            sutras_match(sutras@),
            k <= 14,
            sutra_with(c, 0) == sutra_with(c, k as int),
        decreases 14 - k,
    {
        let sounds = sutras[k].sounds.as_str();
        let n = sounds.unicode_len();
        let mut j: usize = 0;
        while j < n
            invariant
                sutras_match(sutras@),
                k < 14,
                sounds@ == shiva_sutras()[k as int].0,
                n == sounds@.len(),
                j <= n,
                index_from(sounds@, c, 0) == index_from(sounds@, c, j as int),
                sutra_with(c, 0) == sutra_with(c, k as int),
                forall|i: int| 0 <= i < j ==> sounds@[i] != c,
            decreases n - j,
        {
            if sounds.get_char(j) == c {
                assert(shiva_sutras()[k as int].0.contains(c)) by {
                    assert(shiva_sutras()[k as int].0[j as int] == c);
                }
                assert(sutra_with(c, k as int) == k);
                assert(index_from(sounds@, c, j as int) == j);
                return (k, j);
            }
            j = j + 1;
        }
        assert(!shiva_sutras()[k as int].0.contains(c)) by {
            if shiva_sutras()[k as int].0.contains(c) {
                let w = choose|w: int| 0 <= w < sounds@.len() && sounds@[w] == c;
                assert(sounds@[w] != c);
            }
        }
        assert(sutra_with(c, k as int) == sutra_with(c, (k + 1) as int));
        k = k + 1;
    }
    (14, 0)
}

fn find_sutra_ending_in(sutras: &Vec<Sutra>, it: char, from: usize) -> (r: usize)
    requires
        sutras_match(sutras@),
        from <= 14,
    ensures
        r == sutra_ending_in(it, from as int),
{
    let mut k: usize = from;
    while k < sutras.len()
        invariant
            sutras_match(sutras@),
            from <= k <= 14,
            sutra_ending_in(it, from as int) == sutra_ending_in(it, k as int),
        decreases 14 - k,
    {
        if sutras[k].it == it {
            return k;
        }
        k = k + 1;
    }
    14
}

/// Returns the sounds of the pratyahara `first` ... `it`.
fn pratyahara_set(first: char, it: char, second: bool) -> (r: SoundSet)
    requires
        sutra_with(first, 0) < 14,
    ensures
        r.wf(),
        r@ == pratyahara_sounds(first, it, second),
{
    let sutras = create_shiva_sutras();
    let (k0, j0) = find_sutra_with(&sutras, first);
    let k1 = find_sutra_ending_in(&sutras, it, k0);
    let end: usize = if k1 >= 14 {
        13
    } else if !second {
        k1
    } else {
        let k2 = find_sutra_ending_in(&sutras, it, k1 + 1);
        if k2 >= 14 {
            13
        } else {
            k2
        }
    };
    assert(end == pratyahara_end(k0 as int, it, second));
    proof {
        lemma_sutra_with(first, 0);
        lemma_sutra_ending_in(it, k0 as int);
        if k1 < 14 {
            lemma_sutra_ending_in(it, k1 + 1);
        }
    }
    let ghost target = pratyahara_sounds(first, it, second);
    let mut res = SoundSet::empty();
    let mut k: usize = k0;
    while k <= end
        invariant
            sutras_match(sutras@),
            k0 < 14,
            end < 14,
            k0 <= k <= end + 1,
            k0 == sutra_with(first, 0),
            j0 == index_from(shiva_sutras()[k0 as int].0, first, 0),
            shiva_sutras()[k0 as int].0.contains(first),
            end == pratyahara_end(k0 as int, it, second),
            res.wf(),
            forall|c: char|
                #[trigger] res@.contains(c) <==> exists|kk: int, jj: int|
                    k0 <= kk < k && 0 <= jj < shiva_sutras()[kk].0.len() && (kk > k0 || jj >= j0)
                        && #[trigger] sound_or_long_at(kk, jj, c),
        decreases end + 1 - k,
    {
        let sounds = sutras[k].sounds.as_str();
        let n = sounds.unicode_len();
        let mut j: usize = if k == k0 {
            j0
        } else {
            0
        };
        let ghost j_start = j as int;
        assert(j_start <= n) by {
            if k == k0 {
                assert(shiva_sutras()[k0 as int].0.contains(first));
                let w = choose|w: int| 0 <= w < shiva_sutras()[k0 as int].0.len() && shiva_sutras()[k0 as int].0[w] == first;
                lemma_index_from_bound(shiva_sutras()[k0 as int].0, first, 0, w);
            }
        }
        while j < n
            invariant
                sutras_match(sutras@),
                k0 < 14,
                end < 14,
                k0 <= k <= end,
                k0 == sutra_with(first, 0),
                j0 == index_from(shiva_sutras()[k0 as int].0, first, 0),
                sounds@ == shiva_sutras()[k as int].0,
                n == sounds@.len(),
                j_start == (if k == k0 { j0 as int } else { 0 }),
                j_start <= j <= n,
                res.wf(),
                forall|c: char|
                    #[trigger] res@.contains(c) <==> (exists|kk: int, jj: int|
                        k0 <= kk < k && 0 <= jj < shiva_sutras()[kk].0.len() && (kk > k0 || jj
                            >= j0) && #[trigger] sound_or_long_at(kk, jj, c)) || (exists|jj: int|
                        j_start <= jj < j && #[trigger] sound_or_long_at(k as int, jj, c)),
            decreases n - j,
        {
            let x = sounds.get_char(j);
            proof {
                lemma_sounds_in_table(k as int, j as int);
            }
            let ghost before = res@;
            res.add(x);
            if is_hrasva(x) {
                let d = to_dirgha(x).unwrap();
                res.add(d);
            }
            proof {
                assert forall|c: char|
                    #[trigger] res@.contains(c) <==> (exists|kk: int, jj: int|
                        k0 <= kk < k && 0 <= jj < shiva_sutras()[kk].0.len() && (kk > k0 || jj
                            >= j0) && #[trigger] sound_or_long_at(kk, jj, c)) || (exists|jj: int|
                        j_start <= jj < j + 1 && #[trigger] sound_or_long_at(k as int, jj, c)) by {
                    if sound_or_long_at(k as int, j as int, c) {
                        assert(res@.contains(c));
                    }
                    if exists|jj: int| j_start <= jj < j + 1 && #[trigger] sound_or_long_at(k as int, jj, c) {
                        let jj = choose|jj: int| j_start <= jj < j + 1 && #[trigger] sound_or_long_at(k as int, jj, c);
                        if jj < j {
                            assert(before.contains(c));
                        }
                    }
                    if res@.contains(c) && !before.contains(c) {
                        assert(sound_or_long_at(k as int, j as int, c));
                    }
                }
            }
            j = j + 1;
        }
        proof {
            assert forall|c: char|
                #[trigger] res@.contains(c) <==> exists|kk: int, jj: int|
                    k0 <= kk < k + 1 && 0 <= jj < shiva_sutras()[kk].0.len() && (kk > k0 || jj >= j0)
                        && #[trigger] sound_or_long_at(kk, jj, c) by {
                if exists|jj: int| j_start <= jj < j && #[trigger] sound_or_long_at(k as int, jj, c) {
                    let jj = choose|jj: int| j_start <= jj < j && #[trigger] sound_or_long_at(k as int, jj, c);
                    assert(k0 <= k < k + 1 && 0 <= jj < shiva_sutras()[k as int].0.len() && (k > k0 || jj >= j0));
                }
                if exists|kk: int, jj: int|
                    k0 <= kk < k + 1 && 0 <= jj < shiva_sutras()[kk].0.len() && (kk > k0 || jj >= j0)
                        && #[trigger] sound_or_long_at(kk, jj, c) {
                    let (kk, jj) = choose|kk: int, jj: int|
                        k0 <= kk < k + 1 && 0 <= jj < shiva_sutras()[kk].0.len() && (kk > k0 || jj
                            >= j0) && #[trigger] sound_or_long_at(kk, jj, c);
                    if kk == k {
                        assert(j_start <= jj < j);
                    }
                }
            }
        }
        k = k + 1;
    }
    assert(res@ =~= target);
    res
}

proof fn lemma_sutra_with(c: char, k: int)
    requires
        0 <= k,
    ensures
        sutra_with(c, k) >= k || sutra_with(c, k) == 14,
        sutra_with(c, k) <= 14,
        sutra_with(c, k) < 14 ==> shiva_sutras()[sutra_with(c, k)].0.contains(c),
    decreases 14 - k,
{
    if k < 14 && !shiva_sutras()[k].0.contains(c) {
        lemma_sutra_with(c, k + 1);
    }
}

proof fn lemma_sutra_ending_in(it: char, k: int)
    requires
        0 <= k,
    ensures
        sutra_ending_in(it, k) >= k || sutra_ending_in(it, k) == 14,
        sutra_ending_in(it, k) <= 14,
    decreases 14 - k,
{
    if k < 14 && shiva_sutras()[k].1 != it {
        lemma_sutra_ending_in(it, k + 1);
    }
}

proof fn lemma_index_from_bound(s: Seq<char>, c: char, j: int, w: int)
    requires
        0 <= j <= w < s.len(),
        s[w] == c,
    ensures
        j <= index_from(s, c, j) <= w,
        s[index_from(s, c, j)] == c,
    decreases w - j,
{
    if s[j] != c {
        lemma_index_from_bound(s, c, j + 1, w);
    }
}

/// Returns the sounds of the pratyahara `s`, such as `ac`, `hal` or `iR2`.
fn pratyahara(s: &str) -> (r: SoundSet)
    requires
        names_pratyahara(s@),
    ensures
        r.wf(),
        r@ == spec_pratyahara(s@),
{
    let n = s.unicode_len();
    let first = s.get_char(0);
    let second = n >= 2 && s.get_char(n - 2) == 'R' && s.get_char(n - 1) == '2';
    let it = if second {
        'R'
    } else {
        s.get_char(n - 1)
    };
    pratyahara_set(first, it, second)
}

/// Whether `c` is an ASCII whitespace char, the chars that separate the terms given to `s`.
pub open spec fn is_space(c: char) -> bool {
    c == ' ' || c == '\t' || c == '\n' || c == '\u{0B}' || c == '\u{0C}' || c == '\r'
}

/// Splits `t` on whitespace: the finished words and the word in progress.
pub open spec fn scan_words(t: Seq<char>) -> (Seq<Seq<char>>, Seq<char>)
    decreases t.len(),
{
    if t.len() == 0 {
        (Seq::empty(), Seq::empty())
    } else {
        let (done, cur) = scan_words(t.drop_last());
        let c = t.last();
        if is_space(c) {
            if cur.len() > 0 {
                (done.push(cur), Seq::empty())
            } else {
                (done, cur)
            }
        } else {
            (done, cur.push(c))
        }
    }
}

/// The whitespace-separated words of `t`.
pub open spec fn words(t: Seq<char>) -> Seq<Seq<char>> {
    let (done, cur) = scan_words(t);
    if cur.len() > 0 {
        done.push(cur)
    } else {
        done
    }
}

/// Whether `w` names a vowel together with its savarnas (`a`, `A`, ... `X`).
pub open spec fn is_ak_word(w: Seq<char>) -> bool {
    w.len() == 1 && (w[0] == 'a' || w[0] == 'A' || w[0] == 'i' || w[0] == 'I' || w[0] == 'u'
        || w[0] == 'U' || w[0] == 'f' || w[0] == 'F' || w[0] == 'x' || w[0] == 'X')
}

/// Whether `w` ends with `u~`, which names a class of sounds (1.1.69).
pub open spec fn ends_with_u_tilde(w: Seq<char>) -> bool {
    w.len() >= 2 && w[w.len() - 2] == 'u' && w[w.len() - 1] == '~'
}

/// The sounds that one word given to `s` names.
pub open spec fn word_sounds(w: Seq<char>) -> Set<char> {
    if ends_with_u_tilde(w) || is_ak_word(w) {
        spec_savarna(w[0]).to_set()
    } else if w.len() == 1 {
        set![w[0]]
    } else {
        spec_pratyahara(w)
    }
}

/// Whether `s` can read the word `w`.
pub open spec fn valid_word(w: Seq<char>) -> bool {
    w.len() >= 1 && (ends_with_u_tilde(w) || is_ak_word(w) || w.len() == 1 || names_pratyahara(w))
}

/// Whether every char of `t` is ASCII.
pub open spec fn all_ascii(t: Seq<char>) -> bool {
    forall|i: int| 0 <= i < t.len() ==> (#[trigger] t[i] as u32) < 128
}

/// A text without whitespace is one word.
pub proof fn lemma_one_word(w: Seq<char>)
    requires
        w.len() >= 1,
        forall|i: int| 0 <= i < w.len() ==> !is_space(#[trigger] w[i]),
    ensures
        words(w) == seq![w],
{
    lemma_scan_no_space(w, w.len() as int);
    assert(w.subrange(0, w.len() as int) =~= w);
}

proof fn lemma_scan_no_space(w: Seq<char>, n: int)
    requires
        0 <= n <= w.len(),
        forall|i: int| 0 <= i < w.len() ==> !is_space(#[trigger] w[i]),
    ensures
        scan_words(w.subrange(0, n)).0.len() == 0,
        scan_words(w.subrange(0, n)).1 == w.subrange(0, n),
    decreases n,
{
    if n > 0 {
        lemma_scan_no_space(w, n - 1);
        assert(w.subrange(0, n).drop_last() =~= w.subrange(0, n - 1));
        assert(w.subrange(0, n - 1).push(w[n - 1]) =~= w.subrange(0, n));
    } else {
        assert(w.subrange(0, 0) =~= Seq::<char>::empty());
    }
}

proof fn lemma_scan_extend(pre: Seq<char>, x: Seq<char>, n: int)
    requires
        0 <= n <= x.len(),
        forall|i: int| 0 <= i < x.len() ==> !is_space(#[trigger] x[i]),
    ensures
        scan_words(pre + x.subrange(0, n)) == (scan_words(pre).0, scan_words(pre).1 + x.subrange(
            0,
            n,
        )),
    decreases n,
{
    if n > 0 {
        lemma_scan_extend(pre, x, n - 1);
        assert((pre + x.subrange(0, n)).drop_last() =~= pre + x.subrange(0, n - 1));
        assert((pre + x.subrange(0, n)).last() == x[n - 1]);
        assert(scan_words(pre).1 + x.subrange(0, n - 1).push(x[n - 1]) =~= scan_words(pre).1
            + x.subrange(0, n));
    } else {
        assert(pre + x.subrange(0, 0) =~= pre);
        assert(scan_words(pre).1 + x.subrange(0, 0) =~= scan_words(pre).1);
    }
}

/// Two words separated by a space are two words.
pub proof fn lemma_two_words(a: Seq<char>, b: Seq<char>)
    requires
        a.len() >= 1,
        b.len() >= 1,
        forall|i: int| 0 <= i < a.len() ==> !is_space(#[trigger] a[i]),
        forall|i: int| 0 <= i < b.len() ==> !is_space(#[trigger] b[i]),
    ensures
        words(a + seq![' '] + b) == seq![a, b],
{
    lemma_scan_extend(Seq::<char>::empty(), a, a.len() as int);
    assert(Seq::<char>::empty() + a.subrange(0, a.len() as int) =~= a);
    assert(Seq::<char>::empty() + a =~= a);
    assert(scan_words(Seq::<char>::empty()) == (Seq::<Seq<char>>::empty(), Seq::<char>::empty()));
    let pre = a + seq![' '];
    assert(pre.drop_last() =~= a);
    assert(scan_words(pre) == (seq![a], Seq::<char>::empty())) by {
        assert(Seq::<Seq<char>>::empty().push(a) =~= seq![a]);
    }
    lemma_scan_extend(pre, b, b.len() as int);
    assert(b.subrange(0, b.len() as int) =~= b);
    assert(Seq::<char>::empty() + b =~= b);
    assert(seq![a].push(b) =~= seq![a, b]);
}

/// The words of `ws`, separated by single spaces.
pub open spec fn joined_words(ws: Seq<Seq<char>>) -> Seq<char>
    decreases ws.len(),
{
    if ws.len() <= 1 {
        if ws.len() == 1 {
            ws[0]
        } else {
            Seq::empty()
        }
    } else {
        joined_words(ws.drop_last()) + seq![' '] + ws.last()
    }
}

/// Words without whitespace, joined by single spaces, are those words again.
pub proof fn lemma_joined_words(ws: Seq<Seq<char>>)
    requires
        ws.len() >= 1,
        forall|k: int|
            0 <= k < ws.len() ==> (#[trigger] ws[k]).len() >= 1 && forall|i: int|
                0 <= i < ws[k].len() ==> !is_space(#[trigger] ws[k][i]),
    ensures
        scan_words(joined_words(ws)) == (ws.drop_last(), ws.last()),
        words(joined_words(ws)) == ws,
    decreases ws.len(),
{
    let last = ws.last();
    assert(last == ws[ws.len() - 1]);
    if ws.len() == 1 {
        lemma_scan_extend(Seq::<char>::empty(), last, last.len() as int);
        assert(Seq::<char>::empty() + last.subrange(0, last.len() as int) =~= last);
        assert(Seq::<char>::empty() + last =~= last);
        assert(scan_words(Seq::<char>::empty()) == (Seq::<Seq<char>>::empty(), Seq::<char>::empty()));
        assert(ws.drop_last() =~= Seq::<Seq<char>>::empty());
        assert(Seq::<Seq<char>>::empty().push(last) =~= ws);
    } else {
        let init = ws.drop_last();
        assert forall|k: int| 0 <= k < init.len() implies (#[trigger] init[k]).len() >= 1 && forall|i: int|
            0 <= i < init[k].len() ==> !is_space(#[trigger] init[k][i]) by {
            assert(init[k] == ws[k]);
        }
        lemma_joined_words(init);
        let pre = joined_words(init) + seq![' '];
        assert(pre.drop_last() =~= joined_words(init));
        assert(init.last() == init[init.len() - 1]);
        assert(init.drop_last().push(init.last()) =~= init);
        assert(scan_words(pre) == (init, Seq::<char>::empty()));
        lemma_scan_extend(pre, last, last.len() as int);
        assert(last.subrange(0, last.len() as int) =~= last);
        assert(Seq::<char>::empty() + last =~= last);
        assert(init.push(last) =~= ws);
    }
}

/// Where `set` holds a sound of `order`, the members of `order` in `set` are not none.
pub proof fn lemma_filter_in_nonempty(order: Seq<char>, set: Set<char>, c: char)
    requires
        order.contains(c),
        set.contains(c),
    ensures
        filter_in(order, set).len() > 0,
    decreases order.len(),
{
    if order.last() != c || !set.contains(order.last()) {
        let k = choose|k: int| 0 <= k < order.len() && order[k] == c;
        assert(order.drop_last()[k] == c);
        lemma_filter_in_nonempty(order.drop_last(), set, c);
    }
}

/// Whether `s` can read `t`: ASCII text whose every word names sounds.
pub open spec fn valid_sound_list(t: Seq<char>) -> bool {
    all_ascii(t) && forall|k: int| 0 <= k < words(t).len() ==> valid_word(#[trigger] words(t)[k])
}

/// The sounds that the words of `ws` name, together.
pub open spec fn sounds_of_words(ws: Seq<Seq<char>>) -> Set<char> {
    Set::new(|c: char| exists|k: int| 0 <= k < ws.len() && #[trigger] word_sounds(ws[k]).contains(c))
}

/// The sounds that the whitespace-separated terms of `t` name.
pub open spec fn spec_s(t: Seq<char>) -> Set<char> {
    sounds_of_words(words(t))
}

proof fn lemma_scan_prefix(t: Seq<char>, i: int, j: int)
    requires
        0 <= i <= j <= t.len(),
    ensures
        scan_words(t.subrange(0, i)).0.len() <= scan_words(t.subrange(0, j)).0.len(),
        forall|k: int|
            0 <= k < scan_words(t.subrange(0, i)).0.len() ==> scan_words(t.subrange(0, j)).0[k]
                == #[trigger] scan_words(t.subrange(0, i)).0[k],
    decreases j - i,
{
    if j > i {
        lemma_scan_prefix(t, i, j - 1);
        assert(t.subrange(0, j).drop_last() =~= t.subrange(0, j - 1));
    }
}

proof fn lemma_sounds_of_push(ws: Seq<Seq<char>>, w: Seq<char>)
    ensures
        sounds_of_words(ws.push(w)) == sounds_of_words(ws).union(word_sounds(w)),
{
    assert forall|c: char|
        #[trigger] sounds_of_words(ws.push(w)).contains(c) <==> sounds_of_words(ws).union(
            word_sounds(w),
        ).contains(c) by {
        if sounds_of_words(ws).contains(c) {
            let k = choose|k: int| 0 <= k < ws.len() && #[trigger] word_sounds(ws[k]).contains(c);
            assert(ws.push(w)[k] == ws[k]);
        }
        if word_sounds(w).contains(c) {
            assert(ws.push(w)[ws.len() as int] == w);
        }
        if sounds_of_words(ws.push(w)).contains(c) {
            let k = choose|k: int|
                0 <= k < ws.push(w).len() && #[trigger] word_sounds(ws.push(w)[k]).contains(c);
            if k < ws.len() {
                assert(ws.push(w)[k] == ws[k]);
            }
        }
    }
    assert(sounds_of_words(ws.push(w)) =~= sounds_of_words(ws).union(word_sounds(w)));
}

fn word_sound_set(w: &Vec<char>) -> (r: SoundSet)
    requires
        valid_word(w@),
        all_ascii(w@),
    ensures
        r.wf(),
        r@ == word_sounds(w@),
{
    let n = w.len();
    let u_tilde = n >= 2 && w[n - 2] == 'u' && w[n - 1] == '~';
    let ak = n == 1 && matches!(w[0], 'a' | 'A' | 'i' | 'I' | 'u' | 'U' | 'f' | 'F' | 'x' | 'X');
    if u_tilde || ak {
        savarna(w[0])
    } else if n == 1 {
        let mut r = SoundSet::empty();
        assert((w@[0] as u32) < 128);
        r.add(w[0]);
        assert(r@ =~= set![w@[0]]);
        r
    } else {
        let first = w[0];
        let second = w[n - 2] == 'R' && w[n - 1] == '2';
        let it = if second {
            'R'
        } else {
            w[n - 1]
        };
        pratyahara_set(first, it, second)
    }
}

/// Returns the sounds named by `terms`: whitespace-separated pratyaharas (`ac`), classes
/// (`ku~`), vowels that stand for their savarnas (`a`) and single sounds (`h`).
pub fn s(terms: &str) -> (r: SoundSet)
    requires
        valid_sound_list(terms@),
    ensures
        r.wf(),
        r@ == spec_s(terms@),
{
    let t = crate::strings::chars_of(terms);
    let n = t.len();
    let ghost tv = t@;
    let mut res = SoundSet::empty();
    let mut cur: Vec<char> = Vec::new();
    let ghost mut done: Seq<Seq<char>> = Seq::empty();
    let mut i: usize = 0;
    assert(sounds_of_words(done) =~= Set::<char>::empty());
    assert(tv.subrange(0, 0) =~= Seq::<char>::empty());
    while i < n
        invariant
            tv == t@,
            tv == terms@,
            n == tv.len(),
            i <= n,
            valid_sound_list(tv),
            scan_words(tv.subrange(0, i as int)) == (done, cur@),
            all_ascii(cur@),
            res.wf(),
            res@ == sounds_of_words(done),
        decreases n - i,
    {
        let c = t[i];
        assert(tv.subrange(0, (i + 1) as int).drop_last() =~= tv.subrange(0, i as int));
        assert(tv.subrange(0, (i + 1) as int).last() == c);
        let space = c == ' ' || c == '\t' || c == '\n' || c == '\u{0B}' || c == '\u{0C}' || c
            == '\r';
        if space {
            if cur.len() > 0 {
                proof {
                    lemma_scan_prefix(tv, (i + 1) as int, n as int);
                    assert(tv.subrange(0, n as int) =~= tv);
                    let k = done.len() as int;
                    assert(scan_words(tv.subrange(0, (i + 1) as int)).0[k] == cur@);
                    assert(words(tv)[k] == cur@);
                }
                let ws = word_sound_set(&cur);
                proof {
                    lemma_sounds_of_push(done, cur@);
                    done = done.push(cur@);
                }
                res.add_all(&ws);
                cur = Vec::new();
            }
        } else {
            assert((tv[i as int] as u32) < 128);
            cur.push(c);
            assert forall|j: int| 0 <= j < cur@.len() implies (#[trigger] cur@[j] as u32) < 128 by {
                if j == cur@.len() - 1 {
                    assert(cur@[j] == tv[i as int]);
                }
            }
        }
        i = i + 1;
    }
    assert(tv.subrange(0, n as int) =~= tv);
    if cur.len() > 0 {
        assert(words(tv)[done.len() as int] == cur@);
        let ws = word_sound_set(&cur);
        proof {
            lemma_sounds_of_push(done, cur@);
        }
        res.add_all(&ws);
    }
    res
}

#[derive(Clone, Copy, Eq, PartialEq, Structural)]
enum Sthana {
    Kantha,
    Talu,
    Murdha,
    Danta,
    Oshtha,
    Nasika,
    KanthaTalu,
    KanthaOshtha,
    DantaOshtha,
}

#[derive(Clone, Copy, Eq, PartialEq, Structural)]
enum Ghosha {
    Ghoshavat,
    Aghosha,
}

#[derive(Clone, Copy, Eq, PartialEq, Structural)]
enum Prana {
    Mahaprana,
    Alpaprana,
}

#[derive(Clone, Copy, Eq, PartialEq, Structural)]
enum Prayatna {
    Vivrta,
    Ishat,
    Sprshta,
}

/// How a sound is pronounced: its places of articulation, voicing, aspiration and effort.
struct Uccarana {
    sthana: Vec<Sthana>,
    ghosha: Ghosha,
    prana: Prana,
    prayatna: Prayatna,
}

/// The sounds that have their own pronunciation table entry: `al`, `H` and `M`.
#[verifier::opaque]
spec fn has_props(c: char) -> bool {
    c == 'a' || c == 'A' || c == 'i' || c == 'I' || c == 'u' || c == 'U' || c == 'f' || c == 'F' || c == 'x' || c == 'X' || c == 'e' || c == 'E' || c == 'o' || c == 'O' || c == 'M' || c == 'H' || c == 'k' || c == 'K' || c == 'g' || c == 'G' || c == 'N' || c == 'c' || c == 'C' || c == 'j' || c == 'J' || c == 'Y' || c == 'w' || c == 'W' || c == 'q' || c == 'Q' || c == 'R' || c == 't' || c == 'T' || c == 'd' || c == 'D' || c == 'n' || c == 'p' || c == 'P' || c == 'b' || c == 'B' || c == 'm' || c == 'y' || c == 'r' || c == 'l' || c == 'v' || c == 'S' || c == 'z' || c == 's' || c == 'h'
}

/// The places of articulation of `c`, in the order of the Paninian table.
#[verifier::opaque]
spec fn spec_sthana(c: char) -> Seq<Sthana> {
        (if c == 'a' || c == 'A' || c == 'k' || c == 'K' || c == 'g' || c == 'G' || c == 'N' || c == 'h' || c == 'H' { seq![Sthana::Kantha] } else { Seq::empty() })
        + (if c == 'i' || c == 'I' || c == 'c' || c == 'C' || c == 'j' || c == 'J' || c == 'Y' || c == 'y' || c == 'S' { seq![Sthana::Talu] } else { Seq::empty() })
        + (if c == 'f' || c == 'F' || c == 'x' || c == 'X' || c == 'w' || c == 'W' || c == 'q' || c == 'Q' || c == 'R' || c == 'r' || c == 'z' { seq![Sthana::Murdha] } else { Seq::empty() })
        + (if c == 'f' || c == 'F' || c == 'x' || c == 'X' || c == 't' || c == 'T' || c == 'd' || c == 'D' || c == 'n' || c == 'l' || c == 's' { seq![Sthana::Danta] } else { Seq::empty() })
        + (if c == 'u' || c == 'U' || c == 'p' || c == 'P' || c == 'b' || c == 'B' || c == 'm' { seq![Sthana::Oshtha] } else { Seq::empty() })
        + (if c == 'e' || c == 'E' { seq![Sthana::KanthaTalu] } else { Seq::empty() })
        + (if c == 'o' || c == 'O' { seq![Sthana::KanthaOshtha] } else { Seq::empty() })
        + (if c == 'v' { seq![Sthana::DantaOshtha] } else { Seq::empty() })
        + (if c == 'Y' || c == 'm' || c == 'N' || c == 'R' || c == 'n' || c == 'M' { seq![Sthana::Nasika] } else { Seq::empty() })
}

#[verifier::opaque]
spec fn spec_ghosha(c: char) -> Ghosha {
    if c == 'a' || c == 'A' || c == 'i' || c == 'I' || c == 'u' || c == 'U' || c == 'f' || c == 'F' || c == 'x' || c == 'X' || c == 'e' || c == 'E' || c == 'o' || c == 'O' || c == 'h' || c == 'y' || c == 'v' || c == 'r' || c == 'l' || c == 'Y' || c == 'm' || c == 'N' || c == 'R' || c == 'n' || c == 'J' || c == 'B' || c == 'G' || c == 'Q' || c == 'D' || c == 'j' || c == 'b' || c == 'g' || c == 'q' || c == 'd' || c == 'M' {
        Ghosha::Ghoshavat
    } else {
        Ghosha::Aghosha
    }
}

#[verifier::opaque]
spec fn spec_prana(c: char) -> Prana {
    if c == 'K' || c == 'G' || c == 'C' || c == 'J' || c == 'W' || c == 'Q' || c == 'T' || c == 'D' || c == 'P' || c == 'B' || c == 'h' {
        Prana::Mahaprana
    } else {
        Prana::Alpaprana
    }
}

#[verifier::opaque]
spec fn spec_prayatna(c: char) -> Prayatna {
    if c == 'y' || c == 'v' || c == 'r' || c == 'l' || c == 'S' || c == 'z' || c == 's' {
        Prayatna::Ishat
    } else if c == 'Y' || c == 'm' || c == 'N' || c == 'R' || c == 'n' || c == 'J' || c == 'B' || c == 'G' || c == 'Q' || c == 'D' || c == 'j' || c == 'b' || c == 'g' || c == 'q' || c == 'd' || c == 'K' || c == 'P' || c == 'C' || c == 'W' || c == 'T' || c == 'c' || c == 'w' || c == 't' || c == 'k' || c == 'p' {
        Prayatna::Sprshta
    } else {
        Prayatna::Vivrta
    }
}

/// How many places of `a` also occur in `b`.
spec fn shared_places(a: Seq<Sthana>, b: Seq<Sthana>) -> int
    decreases a.len(),
{
    if a.len() == 0 {
        0
    } else {
        shared_places(a.drop_last(), b) + if b.contains(a.last()) {
            1int
        } else {
            0int
        }
    }
}

/// The distance between the pronunciations of the sounds `y` and `x`: one for each of
/// voicing, aspiration and effort that differ, plus the places that the two do not share.
#[verifier::opaque]
pub closed spec fn sound_distance(y: char, x: char) -> int {
    (if spec_ghosha(y) != spec_ghosha(x) {
        1int
    } else {
        0int
    }) + (if spec_prana(y) != spec_prana(x) {
        1int
    } else {
        0int
    }) + (if spec_prayatna(y) != spec_prayatna(x) {
        1int
    } else {
        0int
    }) + spec_sthana(y).len() + spec_sthana(x).len() - 2 * shared_places(
        spec_sthana(y),
        spec_sthana(x),
    )
}

impl Uccarana {
    spec fn matches_sound(&self, c: char) -> bool {
        self.sthana@ == spec_sthana(c) && self.ghosha == spec_ghosha(c) && self.prana
            == spec_prana(c) && self.prayatna == spec_prayatna(c)
    }

    fn distance(&self, other: &Uccarana) -> (r: i32)
        requires
            self.sthana@.len() <= 4,
            other.sthana@.len() <= 4,
        ensures
            r == (if self.ghosha != other.ghosha {
                1int
            } else {
                0int
            }) + (if self.prana != other.prana {
                1int
            } else {
                0int
            }) + (if self.prayatna != other.prayatna {
                1int
            } else {
                0int
            }) + self.sthana@.len() + other.sthana@.len() - 2 * shared_places(
                self.sthana@,
                other.sthana@,
            ),
    {
        let mut dist: i32 = 0;
        if self.ghosha != other.ghosha {
            dist += 1;
        }
        if self.prana != other.prana {
            dist += 1;
        }
        if self.prayatna != other.prayatna {
            dist += 1;
        }
        let mut sthana_dist: i32 = (self.sthana.len() + other.sthana.len()) as i32;
        let mut i: usize = 0;
        while i < self.sthana.len()
            invariant
                i <= self.sthana@.len(),
                self.sthana@.len() <= 4,
                other.sthana@.len() <= 4,
                sthana_dist == self.sthana@.len() + other.sthana@.len() - 2 * shared_places(
                    self.sthana@.subrange(0, i as int),
                    other.sthana@,
                ),
                0 <= shared_places(self.sthana@.subrange(0, i as int), other.sthana@) <= i,
            decreases self.sthana@.len() - i,
        {
            let s = self.sthana[i];
            assert(self.sthana@.subrange(0, (i + 1) as int).drop_last() =~= self.sthana@.subrange(
                0,
                i as int,
            ));
            let mut found = false;
            let mut j: usize = 0;
            while j < other.sthana.len()
                invariant
                    j <= other.sthana@.len(),
                    found == exists|k: int| 0 <= k < j && other.sthana@[k] == s,
                decreases other.sthana@.len() - j,
            {
                if other.sthana[j] == s {
                    found = true;
                }
                j = j + 1;
            }
            if found {
                sthana_dist -= 2;
            }
            i = i + 1;
        }
        assert(self.sthana@.subrange(0, self.sthana@.len() as int) =~= self.sthana@);
        dist + sthana_dist
    }
}

proof fn lemma_sthana_len(c: char)
    ensures
        spec_sthana(c).len() <= 4,
{
    reveal(spec_sthana);
}

/// Returns how `c` is pronounced, for the sounds that have a table entry.
fn sound_props(c: char) -> (r: Option<Uccarana>)
    ensures
        r is Some <==> has_props(c),
        r matches Some(u) ==> u.matches_sound(c),
{
    proof {
        reveal(has_props);
    }
    if !matches!(c, 'a' | 'A' | 'i' | 'I' | 'u' | 'U' | 'f' | 'F' | 'x' | 'X' | 'e' | 'E' | 'o' | 'O' | 'M' | 'H' | 'k' | 'K' | 'g' | 'G' | 'N' | 'c' | 'C' | 'j' | 'J' | 'Y' | 'w' | 'W' | 'q' | 'Q' | 'R' | 't' | 'T' | 'd' | 'D' | 'n' | 'p' | 'P' | 'b' | 'B' | 'm' | 'y' | 'r' | 'l' | 'v' | 'S' | 'z' | 's' | 'h') {
        return None;
    }
    let mut sthana: Vec<Sthana> = Vec::new();
    if matches!(c, 'a' | 'A' | 'k' | 'K' | 'g' | 'G' | 'N' | 'h' | 'H') {
        sthana.push(Sthana::Kantha);
    }
    if matches!(c, 'i' | 'I' | 'c' | 'C' | 'j' | 'J' | 'Y' | 'y' | 'S') {
        sthana.push(Sthana::Talu);
    }
    if matches!(c, 'f' | 'F' | 'x' | 'X' | 'w' | 'W' | 'q' | 'Q' | 'R' | 'r' | 'z') {
        sthana.push(Sthana::Murdha);
    }
    if matches!(c, 'f' | 'F' | 'x' | 'X' | 't' | 'T' | 'd' | 'D' | 'n' | 'l' | 's') {
        sthana.push(Sthana::Danta);
    }
    if matches!(c, 'u' | 'U' | 'p' | 'P' | 'b' | 'B' | 'm') {
        sthana.push(Sthana::Oshtha);
    }
    if matches!(c, 'e' | 'E') {
        sthana.push(Sthana::KanthaTalu);
    }
    if matches!(c, 'o' | 'O') {
        sthana.push(Sthana::KanthaOshtha);
    }
    if matches!(c, 'v') {
        sthana.push(Sthana::DantaOshtha);
    }
    if matches!(c, 'Y' | 'm' | 'N' | 'R' | 'n' | 'M') {
        sthana.push(Sthana::Nasika);
    }
    let ghosha = if matches!(c, 'a' | 'A' | 'i' | 'I' | 'u' | 'U' | 'f' | 'F' | 'x' | 'X' | 'e' | 'E' | 'o' | 'O' | 'h' | 'y' | 'v' | 'r' | 'l' | 'Y' | 'm' | 'N' | 'R' | 'n' | 'J' | 'B' | 'G' | 'Q' | 'D' | 'j' | 'b' | 'g' | 'q' | 'd' | 'M') {
        Ghosha::Ghoshavat
    } else {
        Ghosha::Aghosha
    };
    let prana = if matches!(c, 'K' | 'G' | 'C' | 'J' | 'W' | 'Q' | 'T' | 'D' | 'P' | 'B' | 'h') {
        Prana::Mahaprana
    } else {
        Prana::Alpaprana
    };
    let prayatna = if matches!(c, 'y' | 'v' | 'r' | 'l' | 'S' | 'z' | 's') {
        Prayatna::Ishat
    } else if matches!(c, 'Y' | 'm' | 'N' | 'R' | 'n' | 'J' | 'B' | 'G' | 'Q' | 'D' | 'j' | 'b' | 'g' | 'q' | 'd' | 'K' | 'P' | 'C' | 'W' | 'T' | 'c' | 'w' | 't' | 'k' | 'p') {
        Prayatna::Sprshta
    } else {
        Prayatna::Vivrta
    };
    proof {
        reveal(spec_sthana);
        reveal(spec_ghosha);
        reveal(spec_prana);
        reveal(spec_prayatna);
    }
    assert(sthana@ =~= spec_sthana(c));
    Some(Uccarana { sthana, ghosha, prana, prayatna })
}

/// The first sound of `ys` whose pronunciation is closest to that of `x`.
pub open spec fn closest_sound(x: char, ys: Seq<char>) -> char
    decreases ys.len(),
{
    if ys.len() <= 1 {
        ys[0]
    } else {
        let best = closest_sound(x, ys.drop_last());
        if sound_distance(ys.last(), x) < sound_distance(best, x) {
            ys.last()
        } else {
            best
        }
    }
}

proof fn lemma_panini_sound(c: char)
    requires
        panini_order().contains(c),
    ensures
        has_props(c),
        0 < (c as u32) < 128,
        stored_value(c) != 0,
        stored_value(c) as char == c,
{
    reveal(has_props);
    let k = choose|k: int| 0 <= k < panini_order().len() && panini_order()[k] == c;
    assert(has_props(c) && 0 < (c as u32) < 128);
}

proof fn lemma_filter_in(order: Seq<char>, set: Set<char>, c: char)
    requires
        filter_in(order, set).contains(c),
    ensures
        order.contains(c),
        set.contains(c),
    decreases order.len(),
{
    if order.len() > 0 {
        let rest = filter_in(order.drop_last(), set);
        if set.contains(order.last()) && c == order.last() {
            assert(order[order.len() - 1] == c);
        } else {
            if set.contains(order.last()) {
                let k = choose|k: int| 0 <= k < rest.push(order.last()).len() && rest.push(order.last())[k] == c;
                assert(rest[k] == c);
            }
            lemma_filter_in(order.drop_last(), set, c);
            let k = choose|k: int| 0 <= k < order.drop_last().len() && order.drop_last()[k] == c;
            assert(order[k] == c);
        }
    }
}

/// Maps each sound of `xs` to the sound of `ys` whose pronunciation is closest to it; of
/// equally close sounds, the first in Paninian order.
pub fn map_sounds(xs: &str, ys: &str) -> (r: SoundMap)
    requires
        valid_sound_list(xs@),
        valid_sound_list(ys@),
        filter_in(panini_order(), spec_s(ys@)).len() > 0,
    ensures
        r.wf(),
        r@ == Map::new(
            |x: char| filter_in(panini_order(), spec_s(xs@)).contains(x),
            |x: char| closest_sound(x, filter_in(panini_order(), spec_s(ys@))),
        ),
{
    let xs = s(xs);
    let ys = s(ys);
    let xs_str = xs.to_string();
    let ys_str = ys.to_string();
    let xv = crate::strings::chars_of(xs_str.as_str());
    let yv = crate::strings::chars_of(ys_str.as_str());
    let ghost target = Map::new(
        |x: char| xv@.contains(x),
        |x: char| closest_sound(x, yv@),
    );
    let mut mapping = SoundMap::new();
    let mut i: usize = 0;
    while i < xv.len()
        invariant
            i <= xv@.len(),
            xv@ == filter_in(panini_order(), xs@),
            yv@ == filter_in(panini_order(), ys@),
            yv@.len() > 0,
            mapping.wf(),
            mapping@ == Map::new(
                |x: char| xv@.subrange(0, i as int).contains(x),
                |x: char| closest_sound(x, yv@),
            ),
        decreases xv@.len() - i,
    {
        let x = xv[i];
        proof {
            assert(xv@.contains(x)) by { assert(xv@[i as int] == x); }
            lemma_filter_in(panini_order(), xs@, x);
            lemma_panini_sound(x);
            lemma_sthana_len(x);
        }
        let x_props = sound_props(x).unwrap();
        let best = closest_to(x, &x_props, &yv, Ghost(ys@));
        proof {
            lemma_closest_in(x, yv@);
            lemma_filter_in(panini_order(), ys@, best);
            lemma_panini_sound(best);
        }
        let ghost old_map = mapping@;
        mapping.insert(x, best);
        assert(mapping@ == old_map.insert(x, best));
        proof {
            let pre = xv@.subrange(0, i as int);
            let post = xv@.subrange(0, (i + 1) as int);
            assert forall|z: char| #[trigger] post.contains(z) == (pre.contains(z) || z == x) by {
                if pre.contains(z) {
                    let k = choose|k: int| 0 <= k < pre.len() && pre[k] == z;
                    assert(post[k] == z);
                }
                if z == x {
                    assert(post[i as int] == z);
                }
                if post.contains(z) {
                    let k = choose|k: int| 0 <= k < post.len() && post[k] == z;
                    if k < i {
                        assert(pre[k] == z);
                    }
                }
            }
            assert(mapping@ =~= Map::new(
                |z: char| post.contains(z),
                |z: char| closest_sound(z, yv@),
            ));
        }
        i = i + 1;
    }
    assert(xv@.subrange(0, xv@.len() as int) =~= xv@);
    assert(mapping@ =~= target);
    mapping
}

proof fn lemma_distance(u: &Uccarana, v: &Uccarana, y: char, x: char)
    requires
        u.matches_sound(y),
        v.matches_sound(x),
    ensures
        sound_distance(y, x) == (if u.ghosha != v.ghosha {
            1int
        } else {
            0int
        }) + (if u.prana != v.prana {
            1int
        } else {
            0int
        }) + (if u.prayatna != v.prayatna {
            1int
        } else {
            0int
        }) + u.sthana@.len() + v.sthana@.len() - 2 * shared_places(u.sthana@, v.sthana@),
{
    reveal(sound_distance);
}

fn closest_to(x: char, x_props: &Uccarana, yv: &Vec<char>, Ghost(ys): Ghost<Set<char>>) -> (r: char)
    requires
        yv@ == filter_in(panini_order(), ys),
        yv@.len() > 0,
        x_props.matches_sound(x),
        spec_sthana(x).len() <= 4,
    ensures
        r == closest_sound(x, yv@),
{
    proof {
        assert(yv@.contains(yv@[0]));
        lemma_filter_in(panini_order(), ys, yv@[0]);
        lemma_panini_sound(yv@[0]);
        lemma_sthana_len(yv@[0]);
    }
    let first_props = sound_props(yv[0]).unwrap();
    let mut best = yv[0];
    let mut best_dist = first_props.distance(x_props);
    proof {
        lemma_distance(&first_props, x_props, yv@[0], x);
    }
    let mut j: usize = 1;
    assert(yv@.subrange(0, 1) =~= seq![yv@[0]]);
    while j < yv.len()
        invariant
            1 <= j <= yv@.len(),
            yv@ == filter_in(panini_order(), ys),
            x_props.matches_sound(x),
            spec_sthana(x).len() <= 4,
            best == closest_sound(x, yv@.subrange(0, j as int)),
            best_dist == sound_distance(best, x),
        decreases yv@.len() - j,
    {
        let y = yv[j];
        proof {
            assert(yv@.contains(y)) by { assert(yv@[j as int] == y); }
            lemma_filter_in(panini_order(), ys, y);
            lemma_panini_sound(y);
            lemma_sthana_len(y);
        }
        let y_props = sound_props(y).unwrap();
        let d = y_props.distance(x_props);
        proof {
            lemma_distance(&y_props, x_props, y, x);
        }
        assert(yv@.subrange(0, (j + 1) as int).drop_last() =~= yv@.subrange(0, j as int));
        if d < best_dist {
            best = y;
            best_dist = d;
        }
        j = j + 1;
    }
    assert(yv@.subrange(0, yv@.len() as int) =~= yv@);
    best
}

proof fn lemma_closest_in(x: char, ys: Seq<char>)
    requires
        ys.len() > 0,
    ensures
        ys.contains(closest_sound(x, ys)),
    decreases ys.len(),
{
    if ys.len() <= 1 {
        assert(ys[0] == closest_sound(x, ys));
    } else {
        lemma_closest_in(x, ys.drop_last());
        let best = closest_sound(x, ys.drop_last());
        if closest_sound(x, ys) == ys.last() {
            assert(ys[ys.len() - 1] == ys.last());
        } else {
            let k = choose|k: int| 0 <= k < ys.drop_last().len() && ys.drop_last()[k] == best;
            assert(ys[k] == best);
        }
    }
}

} // verus!
