//! Common arguments for the crate's main functions.
//!
//! Before we begin a prakriya, we must declare certain morphological information up-front, such as
//! our desired purusha and vacana, the dhatu we wish to use, and so on. To better document the API
//! and to help users avoid common typos, we model this information through the enums and structs
//! in this module.
//!
//! For extra flexibility, all of the enums here provide `as_str` and `from_str` methods.
use crate::constants::Tag;
use crate::prakriya::{compact_chars, compact_from};
use crate::strings;
use compact_str::CompactString;
use std::str::FromStr;
use vstd::prelude::*;

verus! {

/// Indicates a failure to parse a string representation of some `semantics` enum.
#[derive(Debug, Clone)]
pub struct ArgumentError {
    /// The error message.
    msg: String,
}

impl ArgumentError {
    fn new(s: &str) -> (e: Self)
        ensures
            e.message() == s@,
    {
        ArgumentError { msg: strings::string_from(s) }
    }

    /// The error message.
    pub closed spec fn message(&self) -> Seq<char> {
        self.msg@
    }

    /// Returns the error message.
    pub fn to_string(&self) -> (r: String)
        ensures
            r@ == self.message(),
    {
        self.msg.clone()
    }
}

/// Defines an antargana.
///
/// The dhatus in the Dhatupatha are organized in ten large *gaṇa*s or classes. Within these larger
/// *gaṇa*s, certain *antargaṇa*s or subclasses have extra properties that affect the derivations
/// they produce. For example, dhatus in the *kuṭādi antargaṇa* generally do not allow *guṇa* vowel
/// changes.
///
/// Since most dhatus appear exactly once per *gaṇa*, this crate can usually infer whether a dhatu
/// is in a specific *antargaṇa*. However, some *gaṇa*s have dhatus that repeat, and these
/// repeating dhatus cause ambiguities for our code. (Examples: `juqa~` appears twice in
/// *tudādigaṇa*, once in *kuṭādi* and once outside of it.)
///
/// To avoid this ambiguity, we require that certain *antargaṇa*s are declared up-front.
#[derive(Copy, Clone, Debug, Eq, PartialEq, Structural)]
pub enum Antargana {
    /// Antargana of *tud* gana. Pratyayas that follow dhatus in kut-Adi will generally be marked
    /// Nit per 1.2.1. Required because of duplicates like `juqa~`.
    Kutadi,
    /// Antargana of *cur* gana ending with `kusma~`. A dhatu in this antargana is always
    /// ātmanepadī. Required because of duplicates like `daSi~`.
    Akusmiya,
}

/// The verb root to use for the derivation.
#[derive(Debug)]
pub struct Dhatu {
    /// The dhatu as stated in its aupadeshika form, as an SLP1 string that includes any
    /// necessary svaras.
    pub upadesha: CompactString,
    /// The dhatu's gana. This should be a number between 1 and 10, inclusive.
    pub gana: u8,
    /// The antargana this Dhatu belongs to.
    pub antargana: Option<Antargana>,
    /// The dhatu's number within its gana in the Dhatupatha, as in the code `gana.number`;
    /// 0 where it is not known.
    pub number: u16,
}

/// The decimal digits of `n`.
pub open spec fn decimal(n: nat) -> Seq<char>
    decreases n,
{
    if n < 10 {
        seq![digit(n)]
    } else {
        decimal(n / 10).push(digit(n % 10))
    }
}

/// The decimal digit for `d`, where `d < 10`.
pub open spec fn digit(d: nat) -> char {
    if d == 0 {
        '0'
    } else if d == 1 {
        '1'
    } else if d == 2 {
        '2'
    } else if d == 3 {
        '3'
    } else if d == 4 {
        '4'
    } else if d == 5 {
        '5'
    } else if d == 6 {
        '6'
    } else if d == 7 {
        '7'
    } else if d == 8 {
        '8'
    } else {
        '9'
    }
}

/// The decimal digits of `n`, padded with '0' on the left to at least `width` digits.
pub open spec fn zero_padded(n: nat, width: nat) -> Seq<char> {
    let d = decimal(n);
    if d.len() < width {
        Seq::new((width - d.len()) as nat, |_i: int| '0') + d
    } else {
        d
    }
}

fn digit_char(d: u16) -> (c: char)
    requires
        d < 10,
    ensures
        c == digit(d as nat),
{
    match d {
        0 => '0',
        1 => '1',
        2 => '2',
        3 => '3',
        4 => '4',
        5 => '5',
        6 => '6',
        7 => '7',
        8 => '8',
        _ => '9',
    }
}

fn decimal_string(n: u16) -> (s: String)
    ensures
        s@ == decimal(n as nat),
    decreases n,
{
    if n < 10 {
        strings::char_string(digit_char(n))
    } else {
        let mut s = decimal_string(n / 10);
        strings::push_char(&mut s, digit_char(n % 10));
        s
    }
}

fn zero_padded_string(n: u16, width: usize) -> (s: String)
    ensures
        s@ == zero_padded(n as nat, width as nat),
{
    let digits = decimal_string(n);
    let len = digits.as_str().unicode_len();
    let mut s = String::new();
    let mut k = len;
    while k < width
        invariant
            len == decimal(n as nat).len(),
            len <= k,
            k <= width || k == len,
            s@ =~= Seq::new((k - len) as nat, |_i: int| '0'),
        decreases width - k,
    {
        strings::push_char(&mut s, '0');
        k = k + 1;
    }
    let r = s.concat(digits.as_str());
    assert(r@ =~= zero_padded(n as nat, width as nat));
    r
}

impl Dhatu {
    /// Creates a new `Dhatu`, whose number within its gana is not known (0).
    pub fn new(upadesha: &str, gana: u8, antargana: Option<Antargana>) -> (d: Self)
        ensures
            compact_chars(d.upadesha) == upadesha@,
            d.gana == gana,
            d.antargana == antargana,
            d.number == 0,
    {
        Dhatu { upadesha: compact_from(upadesha), gana, antargana, number: 0 }
    }

    /// This dhatu with the number `number` within its gana.
    pub fn with_number(self, number: u16) -> (d: Self)
        ensures
            d.upadesha == self.upadesha,
            d.gana == self.gana,
            d.antargana == self.antargana,
            d.number == number,
    {
        Dhatu { number, ..self }
    }

    /// Creates a convenient human-readable code for this dhatu, in the format used on sites
    /// like ashtadhyayi.com: the gana with two digits, a dot, and the number of the dhatu within
    /// its gana with four digits (`01.0001` for the first dhatu of the first gana).
    pub fn code(&self) -> (r: String)
        ensures
            r@ == zero_padded(self.gana as nat, 2) + seq!['.'] + zero_padded(self.number as nat, 4),
    {
        let mut r = zero_padded_string(self.gana as u16, 2);
        strings::push_char(&mut r, '.');
        let number = zero_padded_string(self.number, 4);
        let r = r.concat(number.as_str());
        assert(r@ =~= zero_padded(self.gana as nat, 2) + seq!['.'] + zero_padded(self.number as nat, 4));
        r
    }
}

/// The prayoga of some tinanta.
#[derive(Clone, Copy, Debug, Eq, PartialEq, Structural)]
pub enum Prayoga {
    /// Usage coreferent with the agent, e.g. "The horse *goes* to the village."
    Kartari,
    /// Usage coreferent with the object, e.g. "The village *is gone to* by the horse."
    Karmani,
    /// Usage without a referent, e.g. "*There is motion* by the horse to the village."
    /// bhAve prayoga generally produces the same forms as karmani prayoga.
    Bhave,
}

impl Prayoga {
    /// The string that `as_str` returns for this value.
    pub open spec fn spec_str(self) -> Seq<char> {
        match self {
            Prayoga::Kartari => seq!['k', 'a', 'r', 't', 'a', 'r', 'i'],
            Prayoga::Karmani => seq!['k', 'a', 'r', 'm', 'a', 'n', 'i'],
            Prayoga::Bhave => seq!['b', 'h', 'a', 'v', 'e'],
        }
    }

    /// The value whose string is `s`, if any.
    pub open spec fn from_code(s: Seq<char>) -> Option<Prayoga> {
        if s == seq!['k', 'a', 'r', 't', 'a', 'r', 'i'] {
            Some(Prayoga::Kartari)
        } else if s == seq!['k', 'a', 'r', 'm', 'a', 'n', 'i'] {
            Some(Prayoga::Karmani)
        } else if s == seq!['b', 'h', 'a', 'v', 'e'] {
            Some(Prayoga::Bhave)
        } else {
            None
        }
    }

    /// Returns the tag that marks this value.
    pub(crate) fn as_tag(&self) -> (r: Tag)
        ensures
            r == match self {
                Prayoga::Kartari => Tag::Kartari,
                Prayoga::Karmani => Tag::Karmani,
                Prayoga::Bhave => Tag::Bhave,
            },
    {
        match self {
            Self::Kartari => Tag::Kartari,
            Self::Karmani => Tag::Karmani,
            Self::Bhave => Tag::Bhave,
        }
    }

    /// Returns a simple human-readable string that represents this enum's value.
    pub fn as_str(&self) -> (r: &'static str)
        ensures
            r@ == self.spec_str(),
    {
        match self {
            Self::Kartari => {
                proof {
                    reveal_strlit("kartari");
                    assert("kartari"@ =~= seq!['k', 'a', 'r', 't', 'a', 'r', 'i']);
                }
                "kartari"
            },
            Self::Karmani => {
                proof {
                    reveal_strlit("karmani");
                    assert("karmani"@ =~= seq!['k', 'a', 'r', 'm', 'a', 'n', 'i']);
                }
                "karmani"
            },
            Self::Bhave => {
                proof {
                    reveal_strlit("bhave");
                    assert("bhave"@ =~= seq!['b', 'h', 'a', 'v', 'e']);
                }
                "bhave"
            },
        }
    }

    /// Parses the string that `as_str` gives for a value, as `FromStr` does: `from_code`.
    pub fn parse_code(s: &str) -> (r: Result<Self, &'static str>)
        ensures
            match r {
                Ok(v) => Self::from_code(s@) == Some(v),
                Err(e) => Self::from_code(s@) is None && e@ == "Could not parse Prayoga"@,
            },
    {
        proof {
            reveal_strlit("kartari");
            assert("kartari"@ =~= seq!['k', 'a', 'r', 't', 'a', 'r', 'i']);
            reveal_strlit("karmani");
            assert("karmani"@ =~= seq!['k', 'a', 'r', 'm', 'a', 'n', 'i']);
            reveal_strlit("bhave");
            assert("bhave"@ =~= seq!['b', 'h', 'a', 'v', 'e']);
        }
        if strings::str_eq(s, "kartari") {
            Ok(Self::Kartari)
        } else if strings::str_eq(s, "karmani") {
            Ok(Self::Karmani)
        } else if strings::str_eq(s, "bhave") {
            Ok(Self::Bhave)
        } else {
            Err("Could not parse Prayoga")
        }
    }
}

impl FromStr for Prayoga {
    type Err = &'static str;

    fn from_str(s: &str) -> Result<Self, Self::Err> {
        Self::parse_code(s)
    }
}

/// Parsing the string of a value gives the value back.
pub proof fn lemma_prayoga_str_round_trip(v: Prayoga)
    ensures
        Prayoga::from_code(v.spec_str()) == Some(v),
{
}

/// The person of some tinanta.
#[derive(Clone, Copy, Debug, Eq, PartialEq, Structural)]
pub enum Purusha {
    /// The third person.
    Prathama,
    /// The second person.
    Madhyama,
    /// The first person.
    Uttama,
}

impl Purusha {
    /// The string that `as_str` returns for this value.
    pub open spec fn spec_str(self) -> Seq<char> {
        match self {
            Purusha::Prathama => seq!['p', 'r', 'a', 't', 'h', 'a', 'm', 'a'],
            Purusha::Madhyama => seq!['m', 'a', 'd', 'h', 'y', 'a', 'm', 'a'],
            Purusha::Uttama => seq!['u', 't', 't', 'a', 'm', 'a'],
        }
    }

    /// The value whose string is `s`, if any.
    pub open spec fn from_code(s: Seq<char>) -> Option<Purusha> {
        if s == seq!['p', 'r', 'a', 't', 'h', 'a', 'm', 'a'] {
            Some(Purusha::Prathama)
        } else if s == seq!['m', 'a', 'd', 'h', 'y', 'a', 'm', 'a'] {
            Some(Purusha::Madhyama)
        } else if s == seq!['u', 't', 't', 'a', 'm', 'a'] {
            Some(Purusha::Uttama)
        } else {
            None
        }
    }

    /// Returns the tag that marks this value.
    pub(crate) fn as_tag(&self) -> (r: Tag)
        ensures
            r == match self {
                Purusha::Prathama => Tag::Prathama,
                Purusha::Madhyama => Tag::Madhyama,
                Purusha::Uttama => Tag::Uttama,
            },
    {
        match self {
            Self::Prathama => Tag::Prathama,
            Self::Madhyama => Tag::Madhyama,
            Self::Uttama => Tag::Uttama,
        }
    }

    /// Returns a simple human-readable string that represents this enum's value.
    pub fn as_str(&self) -> (r: &'static str)
        ensures
            r@ == self.spec_str(),
    {
        match self {
            Self::Prathama => {
                proof {
                    reveal_strlit("prathama");
                    assert("prathama"@ =~= seq!['p', 'r', 'a', 't', 'h', 'a', 'm', 'a']);
                }
                "prathama"
            },
            Self::Madhyama => {
                proof {
                    reveal_strlit("madhyama");
                    assert("madhyama"@ =~= seq!['m', 'a', 'd', 'h', 'y', 'a', 'm', 'a']);
                }
                "madhyama"
            },
            Self::Uttama => {
                proof {
                    reveal_strlit("uttama");
                    assert("uttama"@ =~= seq!['u', 't', 't', 'a', 'm', 'a']);
                }
                "uttama"
            },
        }
    }

    /// Parses the string that `as_str` gives for a value, as `FromStr` does: `from_code`.
    pub fn parse_code(s: &str) -> (r: Result<Self, &'static str>)
        ensures
            match r {
                Ok(v) => Self::from_code(s@) == Some(v),
                Err(e) => Self::from_code(s@) is None && e@ == "Could not parse Purusha"@,
            },
    {
        proof {
            reveal_strlit("prathama");
            assert("prathama"@ =~= seq!['p', 'r', 'a', 't', 'h', 'a', 'm', 'a']);
            reveal_strlit("madhyama");
            assert("madhyama"@ =~= seq!['m', 'a', 'd', 'h', 'y', 'a', 'm', 'a']);
            reveal_strlit("uttama");
            assert("uttama"@ =~= seq!['u', 't', 't', 'a', 'm', 'a']);
        }
        if strings::str_eq(s, "prathama") {
            Ok(Self::Prathama)
        } else if strings::str_eq(s, "madhyama") {
            Ok(Self::Madhyama)
        } else if strings::str_eq(s, "uttama") {
            Ok(Self::Uttama)
        } else {
            Err("Could not parse Purusha")
        }
    }
}

impl FromStr for Purusha {
    type Err = &'static str;

    fn from_str(s: &str) -> Result<Self, Self::Err> {
        Self::parse_code(s)
    }
}

/// Parsing the string of a value gives the value back.
pub proof fn lemma_purusha_str_round_trip(v: Purusha)
    ensures
        Purusha::from_code(v.spec_str()) == Some(v),
{
}

/// The number of some tinanta or subanta.
#[derive(Clone, Copy, Debug, Eq, PartialEq, Structural)]
pub enum Vacana {
    /// The singular.
    Eka,
    /// The dual.
    Dvi,
    /// The plural.
    Bahu,
}

impl Vacana {
    /// The string that `as_str` returns for this value.
    pub open spec fn spec_str(self) -> Seq<char> {
        match self {
            Vacana::Eka => seq!['e', 'k', 'a'],
            Vacana::Dvi => seq!['d', 'v', 'i'],
            Vacana::Bahu => seq!['b', 'a', 'h', 'u'],
        }
    }

    /// The value whose string is `s`, if any.
    pub open spec fn from_code(s: Seq<char>) -> Option<Vacana> {
        if s == seq!['e', 'k', 'a'] {
            Some(Vacana::Eka)
        } else if s == seq!['d', 'v', 'i'] {
            Some(Vacana::Dvi)
        } else if s == seq!['b', 'a', 'h', 'u'] {
            Some(Vacana::Bahu)
        } else {
            None
        }
    }

    /// Returns the tag that marks this value.
    pub(crate) fn as_tag(&self) -> (r: Tag)
        ensures
            r == match self {
                Vacana::Eka => Tag::Ekavacana,
                Vacana::Dvi => Tag::Dvivacana,
                Vacana::Bahu => Tag::Bahuvacana,
            },
    {
        match self {
            Self::Eka => Tag::Ekavacana,
            Self::Dvi => Tag::Dvivacana,
            Self::Bahu => Tag::Bahuvacana,
        }
    }

    /// Returns a simple human-readable string that represents this enum's value.
    pub fn as_str(&self) -> (r: &'static str)
        ensures
            r@ == self.spec_str(),
    {
        match self {
            Self::Eka => {
                proof {
                    reveal_strlit("eka");
                    assert("eka"@ =~= seq!['e', 'k', 'a']);
                }
                "eka"
            },
            Self::Dvi => {
                proof {
                    reveal_strlit("dvi");
                    assert("dvi"@ =~= seq!['d', 'v', 'i']);
                }
                "dvi"
            },
            Self::Bahu => {
                proof {
                    reveal_strlit("bahu");
                    assert("bahu"@ =~= seq!['b', 'a', 'h', 'u']);
                }
                "bahu"
            },
        }
    }

    /// Parses the string that `as_str` gives for a value, as `FromStr` does: `from_code`.
    pub fn parse_code(s: &str) -> (r: Result<Self, &'static str>)
        ensures
            match r {
                Ok(v) => Self::from_code(s@) == Some(v),
                Err(e) => Self::from_code(s@) is None && e@ == "Could not parse Vacana"@,
            },
    {
        proof {
            reveal_strlit("eka");
            assert("eka"@ =~= seq!['e', 'k', 'a']);
            reveal_strlit("dvi");
            assert("dvi"@ =~= seq!['d', 'v', 'i']);
            reveal_strlit("bahu");
            assert("bahu"@ =~= seq!['b', 'a', 'h', 'u']);
        }
        if strings::str_eq(s, "eka") {
            Ok(Self::Eka)
        } else if strings::str_eq(s, "dvi") {
            Ok(Self::Dvi)
        } else if strings::str_eq(s, "bahu") {
            Ok(Self::Bahu)
        } else {
            Err("Could not parse Vacana")
        }
    }
}

impl FromStr for Vacana {
    type Err = &'static str;

    fn from_str(s: &str) -> Result<Self, Self::Err> {
        Self::parse_code(s)
    }
}

/// Parsing the string of a value gives the value back.
pub proof fn lemma_vacana_str_round_trip(v: Vacana)
    ensures
        Vacana::from_code(v.spec_str()) == Some(v),
{
}

/// The gender of some subanta.
#[derive(Clone, Copy, Debug, Eq, PartialEq, Structural)]
pub enum Linga {
    /// The masculine.
    Pum,
    /// The feminine.
    Stri,
    /// The neuter.
    Napumsaka,
}

impl Linga {
    /// The string that `as_str` returns for this value.
    pub open spec fn spec_str(self) -> Seq<char> {
        match self {
            Linga::Pum => seq!['p', 'u', 'm'],
            Linga::Stri => seq!['s', 't', 'r', 'i'],
            Linga::Napumsaka => seq!['n', 'a', 'p', 'u', 'm', 's', 'a', 'k', 'a'],
        }
    }

    /// The value whose string is `s`, if any.
    pub open spec fn from_code(s: Seq<char>) -> Option<Linga> {
        if s == seq!['p', 'u', 'm'] {
            Some(Linga::Pum)
        } else if s == seq!['s', 't', 'r', 'i'] {
            Some(Linga::Stri)
        } else if s == seq!['n', 'a', 'p', 'u', 'm', 's', 'a', 'k', 'a'] {
            Some(Linga::Napumsaka)
        } else {
            None
        }
    }

    /// Returns the tag that marks this value.
    pub(crate) fn as_tag(&self) -> (r: Tag)
        ensures
            r == match self {
                Linga::Pum => Tag::Pum,
                Linga::Stri => Tag::Stri,
                Linga::Napumsaka => Tag::Napumsaka,
            },
    {
        match self {
            Self::Pum => Tag::Pum,
            Self::Stri => Tag::Stri,
            Self::Napumsaka => Tag::Napumsaka,
        }
    }

    /// Returns a simple human-readable string that represents this enum's value.
    pub fn as_str(&self) -> (r: &'static str)
        ensures
            r@ == self.spec_str(),
    {
        match self {
            Self::Pum => {
                proof {
                    reveal_strlit("pum");
                    assert("pum"@ =~= seq!['p', 'u', 'm']);
                }
                "pum"
            },
            Self::Stri => {
                proof {
                    reveal_strlit("stri");
                    assert("stri"@ =~= seq!['s', 't', 'r', 'i']);
                }
                "stri"
            },
            Self::Napumsaka => {
                proof {
                    reveal_strlit("napumsaka");
                    assert("napumsaka"@ =~= seq!['n', 'a', 'p', 'u', 'm', 's', 'a', 'k', 'a']);
                }
                "napumsaka"
            },
        }
    }

    /// Parses the string that `as_str` gives for a value, as `FromStr` does: `from_code`.
    pub fn parse_code(s: &str) -> (r: Result<Self, &'static str>)
        ensures
            match r {
                Ok(v) => Self::from_code(s@) == Some(v),
                Err(e) => Self::from_code(s@) is None && e@ == "Could not parse Linga"@,
            },
    {
        proof {
            reveal_strlit("pum");
            assert("pum"@ =~= seq!['p', 'u', 'm']);
            reveal_strlit("stri");
            assert("stri"@ =~= seq!['s', 't', 'r', 'i']);
            reveal_strlit("napumsaka");
            assert("napumsaka"@ =~= seq!['n', 'a', 'p', 'u', 'm', 's', 'a', 'k', 'a']);
        }
        if strings::str_eq(s, "pum") {
            Ok(Self::Pum)
        } else if strings::str_eq(s, "stri") {
            Ok(Self::Stri)
        } else if strings::str_eq(s, "napumsaka") {
            Ok(Self::Napumsaka)
        } else {
            Err("Could not parse Linga")
        }
    }
}

impl FromStr for Linga {
    type Err = &'static str;

    fn from_str(s: &str) -> Result<Self, Self::Err> {
        Self::parse_code(s)
    }
}

/// Parsing the string of a value gives the value back.
pub proof fn lemma_linga_str_round_trip(v: Linga)
    ensures
        Linga::from_code(v.spec_str()) == Some(v),
{
}

/// The case ending of some subanta.
#[derive(Clone, Copy, Debug, Eq, PartialEq, Structural)]
pub enum Vibhakti {
    /// The first vibhakti . Sometimes called the *nominative case*.
    Prathama,
    /// The second vibhakti. Sometimes called the *accusative case*.
    Dvitiya,
    /// The third vibhakti. Sometimes called the *instrumental case*.
    Trtiya,
    /// The fourth vibhakti. Sometimes called the *dative case*.
    Caturthi,
    /// The fifth vibhakti. Sometimes called the *ablative case*.
    Panchami,
    /// The sixth vibhakti. Sometimes called the *genitive case*.
    Sasthi,
    /// The seventh vibhakti. Sometimes called the *locative case*.
    Saptami,
    /// The first vibhakti used in the sense of *sambodhana*. Sometimes called the *vocative case*.
    ///
    /// *Sambodhana* is technically not a *vibhakti but rather an additional semantic condition
    /// that conditions the first vibhakti. But we felt that users would find it more convenient to
    /// have this condition available on `Vibhakti` directly rather than have to define the
    /// *sambodhana* condition separately.
    Sambodhana,
}

impl Vibhakti {
    /// The string that `as_str` returns for this value.
    pub open spec fn spec_str(self) -> Seq<char> {
        match self {
            Vibhakti::Prathama => seq!['1'],
            Vibhakti::Dvitiya => seq!['2'],
            Vibhakti::Trtiya => seq!['3'],
            Vibhakti::Caturthi => seq!['4'],
            Vibhakti::Panchami => seq!['5'],
            Vibhakti::Sasthi => seq!['6'],
            Vibhakti::Saptami => seq!['7'],
            Vibhakti::Sambodhana => seq!['s'],
        }
    }

    /// The value whose string is `s`, if any.
    pub open spec fn from_code(s: Seq<char>) -> Option<Vibhakti> {
        if s == seq!['1'] {
            Some(Vibhakti::Prathama)
        } else if s == seq!['2'] {
            Some(Vibhakti::Dvitiya)
        } else if s == seq!['3'] {
            Some(Vibhakti::Trtiya)
        } else if s == seq!['4'] {
            Some(Vibhakti::Caturthi)
        } else if s == seq!['5'] {
            Some(Vibhakti::Panchami)
        } else if s == seq!['6'] {
            Some(Vibhakti::Sasthi)
        } else if s == seq!['7'] {
            Some(Vibhakti::Saptami)
        } else if s == seq!['s'] {
            Some(Vibhakti::Sambodhana)
        } else {
            None
        }
    }

    /// Returns the tag that marks this value.
    pub(crate) fn as_tag(&self) -> (r: Tag)
        ensures
            r == match self {
                Vibhakti::Prathama => Tag::V1,
                Vibhakti::Dvitiya => Tag::V2,
                Vibhakti::Trtiya => Tag::V3,
                Vibhakti::Caturthi => Tag::V4,
                Vibhakti::Panchami => Tag::V5,
                Vibhakti::Sasthi => Tag::V6,
                Vibhakti::Saptami => Tag::V7,
                Vibhakti::Sambodhana => Tag::V1,
            },
    {
        match self {
            Self::Prathama => Tag::V1,
            Self::Dvitiya => Tag::V2,
            Self::Trtiya => Tag::V3,
            Self::Caturthi => Tag::V4,
            Self::Panchami => Tag::V5,
            Self::Sasthi => Tag::V6,
            Self::Saptami => Tag::V7,
            Self::Sambodhana => Tag::V1,
        }
    }

    /// Returns a simple human-readable string that represents this enum's value.
    pub fn as_str(&self) -> (r: &'static str)
        ensures
            r@ == self.spec_str(),
    {
        match self {
            Self::Prathama => {
                proof {
                    reveal_strlit("1");
                    assert("1"@ =~= seq!['1']);
                }
                "1"
            },
            Self::Dvitiya => {
                proof {
                    reveal_strlit("2");
                    assert("2"@ =~= seq!['2']);
                }
                "2"
            },
            Self::Trtiya => {
                proof {
                    reveal_strlit("3");
                    assert("3"@ =~= seq!['3']);
                }
                "3"
            },
            Self::Caturthi => {
                proof {
                    reveal_strlit("4");
                    assert("4"@ =~= seq!['4']);
                }
                "4"
            },
            Self::Panchami => {
                proof {
                    reveal_strlit("5");
                    assert("5"@ =~= seq!['5']);
                }
                "5"
            },
            Self::Sasthi => {
                proof {
                    reveal_strlit("6");
                    assert("6"@ =~= seq!['6']);
                }
                "6"
            },
            Self::Saptami => {
                proof {
                    reveal_strlit("7");
                    assert("7"@ =~= seq!['7']);
                }
                "7"
            },
            Self::Sambodhana => {
                proof {
                    reveal_strlit("s");
                    assert("s"@ =~= seq!['s']);
                }
                "s"
            },
        }
    }

    /// Parses the string that `as_str` gives for a value, as `FromStr` does: `from_code`.
    pub fn parse_code(s: &str) -> (r: Result<Self, &'static str>)
        ensures
            match r {
                Ok(v) => Self::from_code(s@) == Some(v),
                Err(e) => Self::from_code(s@) is None && e@ == "Could not parse Vibhakti"@,
            },
    {
        proof {
            reveal_strlit("1");
            assert("1"@ =~= seq!['1']);
            reveal_strlit("2");
            assert("2"@ =~= seq!['2']);
            reveal_strlit("3");
            assert("3"@ =~= seq!['3']);
            reveal_strlit("4");
            assert("4"@ =~= seq!['4']);
            reveal_strlit("5");
            assert("5"@ =~= seq!['5']);
            reveal_strlit("6");
            assert("6"@ =~= seq!['6']);
            reveal_strlit("7");
            assert("7"@ =~= seq!['7']);
            reveal_strlit("s");
            assert("s"@ =~= seq!['s']);
        }
        if strings::str_eq(s, "1") {
            Ok(Self::Prathama)
        } else if strings::str_eq(s, "2") {
            Ok(Self::Dvitiya)
        } else if strings::str_eq(s, "3") {
            Ok(Self::Trtiya)
        } else if strings::str_eq(s, "4") {
            Ok(Self::Caturthi)
        } else if strings::str_eq(s, "5") {
            Ok(Self::Panchami)
        } else if strings::str_eq(s, "6") {
            Ok(Self::Sasthi)
        } else if strings::str_eq(s, "7") {
            Ok(Self::Saptami)
        } else if strings::str_eq(s, "s") {
            Ok(Self::Sambodhana)
        } else {
            Err("Could not parse Vibhakti")
        }
    }
}

impl FromStr for Vibhakti {
    type Err = &'static str;

    fn from_str(s: &str) -> Result<Self, Self::Err> {
        Self::parse_code(s)
    }
}

/// Parsing the string of a value gives the value back.
pub proof fn lemma_vibhakti_str_round_trip(v: Vibhakti)
    ensures
        Vibhakti::from_code(v.spec_str()) == Some(v),
{
    assert(seq!['1'] != seq!['2']) by {
        assert(seq!['1'][0] != seq!['2'][0]);
    }
    assert(seq!['1'] != seq!['3']) by {
        assert(seq!['1'][0] != seq!['3'][0]);
    }
    assert(seq!['1'] != seq!['4']) by {
        assert(seq!['1'][0] != seq!['4'][0]);
    }
    assert(seq!['1'] != seq!['5']) by {
        assert(seq!['1'][0] != seq!['5'][0]);
    }
    assert(seq!['1'] != seq!['6']) by {
        assert(seq!['1'][0] != seq!['6'][0]);
    }
    assert(seq!['1'] != seq!['7']) by {
        assert(seq!['1'][0] != seq!['7'][0]);
    }
    assert(seq!['1'] != seq!['s']) by {
        assert(seq!['1'][0] != seq!['s'][0]);
    }
    assert(seq!['2'] != seq!['3']) by {
        assert(seq!['2'][0] != seq!['3'][0]);
    }
    assert(seq!['2'] != seq!['4']) by {
        assert(seq!['2'][0] != seq!['4'][0]);
    }
    assert(seq!['2'] != seq!['5']) by {
        assert(seq!['2'][0] != seq!['5'][0]);
    }
    assert(seq!['2'] != seq!['6']) by {
        assert(seq!['2'][0] != seq!['6'][0]);
    }
    assert(seq!['2'] != seq!['7']) by {
        assert(seq!['2'][0] != seq!['7'][0]);
    }
    assert(seq!['2'] != seq!['s']) by {
        assert(seq!['2'][0] != seq!['s'][0]);
    }
    assert(seq!['3'] != seq!['4']) by {
        assert(seq!['3'][0] != seq!['4'][0]);
    }
    assert(seq!['3'] != seq!['5']) by {
        assert(seq!['3'][0] != seq!['5'][0]);
    }
    assert(seq!['3'] != seq!['6']) by {
        assert(seq!['3'][0] != seq!['6'][0]);
    }
    assert(seq!['3'] != seq!['7']) by {
        assert(seq!['3'][0] != seq!['7'][0]);
    }
    assert(seq!['3'] != seq!['s']) by {
        assert(seq!['3'][0] != seq!['s'][0]);
    }
    assert(seq!['4'] != seq!['5']) by {
        assert(seq!['4'][0] != seq!['5'][0]);
    }
    assert(seq!['4'] != seq!['6']) by {
        assert(seq!['4'][0] != seq!['6'][0]);
    }
    assert(seq!['4'] != seq!['7']) by {
        assert(seq!['4'][0] != seq!['7'][0]);
    }
    assert(seq!['4'] != seq!['s']) by {
        assert(seq!['4'][0] != seq!['s'][0]);
    }
    assert(seq!['5'] != seq!['6']) by {
        assert(seq!['5'][0] != seq!['6'][0]);
    }
    assert(seq!['5'] != seq!['7']) by {
        assert(seq!['5'][0] != seq!['7'][0]);
    }
    assert(seq!['5'] != seq!['s']) by {
        assert(seq!['5'][0] != seq!['s'][0]);
    }
    assert(seq!['6'] != seq!['7']) by {
        assert(seq!['6'][0] != seq!['7'][0]);
    }
    assert(seq!['6'] != seq!['s']) by {
        assert(seq!['6'][0] != seq!['s'][0]);
    }
    assert(seq!['7'] != seq!['s']) by {
        assert(seq!['7'][0] != seq!['s'][0]);
    }
}

/// The tense/mood of some tinanta.
#[derive(Clone, Copy, Debug, Eq, PartialEq, Structural)]
pub enum Lakara {
    /// Describes action in the present tense. Ssometimes called the *present indicative*.
    Lat,
    /// Describes unwitnessed past action. Sometimes called the *perfect*.
    Lit,
    /// Describes future action after the current day. Sometimes called the *periphrastic future*.
    Lut,
    /// Describes general future action. Sometimes called the *simple future*.
    Lrt,
    /// The Vedic subjunctive. `vidyut-prakriya` currently has poor support for this lakara.
    Let,
    /// Describes commands. Sometimes called the *imperative*.
    Lot,
    /// Describes past action before the current day. Sometimes called the *imperfect*.
    Lan,
    /// Describes potential or hypothetical actions. Sometimes called the *optative*.
    VidhiLin,
    /// Describes wishes and prayers. Sometimes called the *benedictive*.
    AshirLin,
    /// Describes general past action. Sometimes called the *aorist*.
    Lun,
    /// Describes past counterfactuals ("would not have ..."). Sometimes called the *conditional*.
    Lrn,
}

impl Lakara {
    /// The string that `as_str` returns for this value.
    pub open spec fn spec_str(self) -> Seq<char> {
        match self {
            Lakara::Lat => seq!['l', 'a', 't'],
            Lakara::Lit => seq!['l', 'i', 't'],
            Lakara::Lut => seq!['l', 'u', 't'],
            Lakara::Lrt => seq!['l', 'r', 't'],
            Lakara::Let => seq!['l', 'e', 't'],
            Lakara::Lot => seq!['l', 'o', 't'],
            Lakara::Lan => seq!['l', 'a', 'n'],
            Lakara::VidhiLin => seq!['v', 'i', 'd', 'h', 'i', '-', 'l', 'i', 'n'],
            Lakara::AshirLin => seq!['a', 's', 'h', 'i', 'r', '-', 'l', 'i', 'n'],
            Lakara::Lun => seq!['l', 'u', 'n'],
            Lakara::Lrn => seq!['l', 'r', 'n'],
        }
    }

    /// The value whose string is `s`, if any.
    pub open spec fn from_code(s: Seq<char>) -> Option<Lakara> {
        if s == seq!['l', 'a', 't'] {
            Some(Lakara::Lat)
        } else if s == seq!['l', 'i', 't'] {
            Some(Lakara::Lit)
        } else if s == seq!['l', 'u', 't'] {
            Some(Lakara::Lut)
        } else if s == seq!['l', 'r', 't'] {
            Some(Lakara::Lrt)
        } else if s == seq!['l', 'e', 't'] {
            Some(Lakara::Let)
        } else if s == seq!['l', 'o', 't'] {
            Some(Lakara::Lot)
        } else if s == seq!['l', 'a', 'n'] {
            Some(Lakara::Lan)
        } else if s == seq!['v', 'i', 'd', 'h', 'i', '-', 'l', 'i', 'n'] {
            Some(Lakara::VidhiLin)
        } else if s == seq!['a', 's', 'h', 'i', 'r', '-', 'l', 'i', 'n'] {
            Some(Lakara::AshirLin)
        } else if s == seq!['l', 'u', 'n'] {
            Some(Lakara::Lun)
        } else if s == seq!['l', 'r', 'n'] {
            Some(Lakara::Lrn)
        } else {
            None
        }
    }

    /// Returns a simple human-readable string that represents this enum's value.
    pub fn as_str(&self) -> (r: &'static str)
        ensures
            r@ == self.spec_str(),
    {
        match self {
            Self::Lat => {
                proof {
                    reveal_strlit("lat");
                    assert("lat"@ =~= seq!['l', 'a', 't']);
                }
                "lat"
            },
            Self::Lit => {
                proof {
                    reveal_strlit("lit");
                    assert("lit"@ =~= seq!['l', 'i', 't']);
                }
                "lit"
            },
            Self::Lut => {
                proof {
                    reveal_strlit("lut");
                    assert("lut"@ =~= seq!['l', 'u', 't']);
                }
                "lut"
            },
            Self::Lrt => {
                proof {
                    reveal_strlit("lrt");
                    assert("lrt"@ =~= seq!['l', 'r', 't']);
                }
                "lrt"
            },
            Self::Let => {
                proof {
                    reveal_strlit("let");
                    assert("let"@ =~= seq!['l', 'e', 't']);
                }
                "let"
            },
            Self::Lot => {
                proof {
                    reveal_strlit("lot");
                    assert("lot"@ =~= seq!['l', 'o', 't']);
                }
                "lot"
            },
            Self::Lan => {
                proof {
                    reveal_strlit("lan");
                    assert("lan"@ =~= seq!['l', 'a', 'n']);
                }
                "lan"
            },
            Self::VidhiLin => {
                proof {
                    reveal_strlit("vidhi-lin");
                    assert("vidhi-lin"@ =~= seq!['v', 'i', 'd', 'h', 'i', '-', 'l', 'i', 'n']);
                }
                "vidhi-lin"
            },
            Self::AshirLin => {
                proof {
                    reveal_strlit("ashir-lin");
                    assert("ashir-lin"@ =~= seq!['a', 's', 'h', 'i', 'r', '-', 'l', 'i', 'n']);
                }
                "ashir-lin"
            },
            Self::Lun => {
                proof {
                    reveal_strlit("lun");
                    assert("lun"@ =~= seq!['l', 'u', 'n']);
                }
                "lun"
            },
            Self::Lrn => {
                proof {
                    reveal_strlit("lrn");
                    assert("lrn"@ =~= seq!['l', 'r', 'n']);
                }
                "lrn"
            },
        }
    }

    /// Parses the string that `as_str` gives for a value, as `FromStr` does: `from_code`.
    pub fn parse_code(s: &str) -> (r: Result<Self, &'static str>)
        ensures
            match r {
                Ok(v) => Self::from_code(s@) == Some(v),
                Err(e) => Self::from_code(s@) is None && e@ == "Could not parse La"@,
            },
    {
        proof {
            reveal_strlit("lat");
            assert("lat"@ =~= seq!['l', 'a', 't']);
            reveal_strlit("lit");
            assert("lit"@ =~= seq!['l', 'i', 't']);
            reveal_strlit("lut");
            assert("lut"@ =~= seq!['l', 'u', 't']);
            reveal_strlit("lrt");
            assert("lrt"@ =~= seq!['l', 'r', 't']);
            reveal_strlit("let");
            assert("let"@ =~= seq!['l', 'e', 't']);
            reveal_strlit("lot");
            assert("lot"@ =~= seq!['l', 'o', 't']);
            reveal_strlit("lan");
            assert("lan"@ =~= seq!['l', 'a', 'n']);
            reveal_strlit("vidhi-lin");
            assert("vidhi-lin"@ =~= seq!['v', 'i', 'd', 'h', 'i', '-', 'l', 'i', 'n']);
            reveal_strlit("ashir-lin");
            assert("ashir-lin"@ =~= seq!['a', 's', 'h', 'i', 'r', '-', 'l', 'i', 'n']);
            reveal_strlit("lun");
            assert("lun"@ =~= seq!['l', 'u', 'n']);
            reveal_strlit("lrn");
            assert("lrn"@ =~= seq!['l', 'r', 'n']);
        }
        if strings::str_eq(s, "lat") {
            Ok(Self::Lat)
        } else if strings::str_eq(s, "lit") {
            Ok(Self::Lit)
        } else if strings::str_eq(s, "lut") {
            Ok(Self::Lut)
        } else if strings::str_eq(s, "lrt") {
            Ok(Self::Lrt)
        } else if strings::str_eq(s, "let") {
            Ok(Self::Let)
        } else if strings::str_eq(s, "lot") {
            Ok(Self::Lot)
        } else if strings::str_eq(s, "lan") {
            Ok(Self::Lan)
        } else if strings::str_eq(s, "vidhi-lin") {
            Ok(Self::VidhiLin)
        } else if strings::str_eq(s, "ashir-lin") {
            Ok(Self::AshirLin)
        } else if strings::str_eq(s, "lun") {
            Ok(Self::Lun)
        } else if strings::str_eq(s, "lrn") {
            Ok(Self::Lrn)
        } else {
            Err("Could not parse La")
        }
    }
}

impl FromStr for Lakara {
    type Err = &'static str;

    fn from_str(s: &str) -> Result<Self, Self::Err> {
        Self::parse_code(s)
    }
}

/// Parsing the string of a value gives the value back.
pub proof fn lemma_lakara_str_round_trip(v: Lakara)
    ensures
        Lakara::from_code(v.spec_str()) == Some(v),
{
}


impl Lakara {
    /// Whether this lakara is Nit.
    pub open spec fn spec_is_nit(self) -> bool {
        self is Lan || self is AshirLin || self is VidhiLin || self is Lun || self is Lrn
    }

    /// Whether this lakara is termed sArvadhAtuka.
    pub open spec fn spec_is_sarvadhatuka(self) -> bool {
        self is Lat || self is Lot || self is Lan || self is VidhiLin
    }

    /// Returns whether or not this lakara is Nit.
    pub(crate) fn is_nit(&self) -> (r: bool)
        ensures
            r == self.spec_is_nit(),
    {
        matches!(self, Lakara::Lan | Lakara::AshirLin | Lakara::VidhiLin | Lakara::Lun | Lakara::Lrn)
    }

    /// Returns whether or not this lakara will be termed sArvadhAtuka.
    pub(crate) fn is_sarvadhatuka(&self) -> (r: bool)
        ensures
            r == self.spec_is_sarvadhatuka(),
    {
        matches!(self, Lakara::Lat | Lakara::Lot | Lakara::Lan | Lakara::VidhiLin)
    }

    /// Returns whether or not this lakara will be termed ArdhadhAtuka.
    pub(crate) fn is_ardhadhatuka(&self) -> (r: bool)
        ensures
            r == !self.spec_is_sarvadhatuka(),
    {
        !self.is_sarvadhatuka()
    }
}

/// The information required to derive a subanta in the grammar.
pub struct SubantaArgs {
    linga: Linga,
    vacana: Vacana,
    vibhakti: Vibhakti,
}

impl SubantaArgs {
    /// The linga of these arguments.
    pub closed spec fn spec_linga(&self) -> Linga {
        self.linga
    }

    /// The vacana of these arguments.
    pub closed spec fn spec_vacana(&self) -> Vacana {
        self.vacana
    }

    /// The vibhakti of these arguments.
    pub closed spec fn spec_vibhakti(&self) -> Vibhakti {
        self.vibhakti
    }

    /// The linga to use in the derivation.
    pub fn linga(&self) -> (r: Linga)
        ensures
            r == self.spec_linga(),
    {
        self.linga
    }

    /// The vacana to use in the derivation.
    pub fn vacana(&self) -> (r: Vacana)
        ensures
            r == self.spec_vacana(),
    {
        self.vacana
    }

    /// The vibhakti to use in the derivation.
    pub fn vibhakti(&self) -> (r: Vibhakti)
        ensures
            r == self.spec_vibhakti(),
    {
        self.vibhakti
    }

    /// Returns a new builder for this struct.
    pub fn builder() -> (b: SubantaArgsBuilder)
        ensures
            b.spec_linga() is None,
            b.spec_vacana() is None,
            b.spec_vibhakti() is None,
    {
        SubantaArgsBuilder::default()
    }
}

/// Convenience struct for building a `SubantaArgs` object.
pub struct SubantaArgsBuilder {
    linga: Option<Linga>,
    vacana: Option<Vacana>,
    vibhakti: Option<Vibhakti>,
}

impl Default for SubantaArgsBuilder {
    fn default() -> (b: Self)
        ensures
            b.spec_linga() is None,
            b.spec_vacana() is None,
            b.spec_vibhakti() is None,
    {
        SubantaArgsBuilder { linga: None, vacana: None, vibhakti: None }
    }
}

impl SubantaArgsBuilder {
    /// The linga set so far.
    pub closed spec fn spec_linga(&self) -> Option<Linga> {
        self.linga
    }

    /// The vacana set so far.
    pub closed spec fn spec_vacana(&self) -> Option<Vacana> {
        self.vacana
    }

    /// The vibhakti set so far.
    pub closed spec fn spec_vibhakti(&self) -> Option<Vibhakti> {
        self.vibhakti
    }

    /// Sets the linga to use in the derivation.
    pub fn linga(&mut self, val: Linga) -> (r: &mut Self)
        ensures
            r.spec_linga() == Some(val),
            r.spec_vacana() == old(self).spec_vacana(),
            r.spec_vibhakti() == old(self).spec_vibhakti(),
            *final(self) == *final(r),
    {
        self.linga = Some(val);
        self
    }

    /// Sets the vacana to use in the derivation.
    pub fn vacana(&mut self, val: Vacana) -> (r: &mut Self)
        ensures
            r.spec_linga() == old(self).spec_linga(),
            r.spec_vacana() == Some(val),
            r.spec_vibhakti() == old(self).spec_vibhakti(),
            *final(self) == *final(r),
    {
        self.vacana = Some(val);
        self
    }

    /// Sets the vibhakti to use in the derivation.
    pub fn vibhakti(&mut self, val: Vibhakti) -> (r: &mut Self)
        ensures
            r.spec_linga() == old(self).spec_linga(),
            r.spec_vacana() == old(self).spec_vacana(),
            r.spec_vibhakti() == Some(val),
            *final(self) == *final(r),
    {
        self.vibhakti = Some(val);
        self
    }

    /// Converts the arguments in this builder into a `SubantaArgs` struct.
    ///
    /// `build()` will fail if any args are missing.
    pub fn build(&self) -> (r: Result<SubantaArgs, ArgumentError>)
        ensures
            r is Ok <==> (self.spec_linga() is Some && self.spec_vacana() is Some
                && self.spec_vibhakti() is Some),
            r matches Ok(a) ==> Some(a.spec_linga()) == self.spec_linga() && Some(a.spec_vacana())
                == self.spec_vacana() && Some(a.spec_vibhakti()) == self.spec_vibhakti(),
            r matches Err(e) ==> e.message() == "foo"@,
    {
        Ok(
            SubantaArgs {
                linga: match self.linga {
                    Some(x) => x,
                    _ => return Err(ArgumentError::new("foo")),
                },
                vacana: match self.vacana {
                    Some(x) => x,
                    _ => return Err(ArgumentError::new("foo")),
                },
                vibhakti: match self.vibhakti {
                    Some(x) => x,
                    _ => return Err(ArgumentError::new("foo")),
                },
            },
        )
    }
}

/// The information required to derive a tinanta in the grammar.
pub struct TinantaArgs {
    prayoga: Prayoga,
    purusha: Purusha,
    lakara: Lakara,
    vacana: Vacana,
}

impl TinantaArgs {
    /// The prayoga of these arguments.
    pub closed spec fn spec_prayoga(&self) -> Prayoga {
        self.prayoga
    }

    /// The purusha of these arguments.
    pub closed spec fn spec_purusha(&self) -> Purusha {
        self.purusha
    }

    /// The lakara of these arguments.
    pub closed spec fn spec_lakara(&self) -> Lakara {
        self.lakara
    }

    /// The vacana of these arguments.
    pub closed spec fn spec_vacana(&self) -> Vacana {
        self.vacana
    }

    /// The prayoga to use in the derivation.
    pub fn prayoga(&self) -> (r: Prayoga)
        ensures
            r == self.spec_prayoga(),
    {
        self.prayoga
    }

    /// The purusha to use in the derivation.
    pub fn purusha(&self) -> (r: Purusha)
        ensures
            r == self.spec_purusha(),
    {
        self.purusha
    }

    /// The lakara to use in the derivation.
    pub fn lakara(&self) -> (r: Lakara)
        ensures
            r == self.spec_lakara(),
    {
        self.lakara
    }

    /// The vacana to use in the derivation.
    pub fn vacana(&self) -> (r: Vacana)
        ensures
            r == self.spec_vacana(),
    {
        self.vacana
    }

    /// Returns a new builder for this struct.
    pub fn builder() -> (b: TinantaArgsBuilder)
        ensures
            b.spec_prayoga() is None,
            b.spec_purusha() is None,
            b.spec_lakara() is None,
            b.spec_vacana() is None,
    {
        TinantaArgsBuilder::default()
    }
}

/// Convenience struct for building a `TinantaArgs` object.
pub struct TinantaArgsBuilder {
    prayoga: Option<Prayoga>,
    purusha: Option<Purusha>,
    lakara: Option<Lakara>,
    vacana: Option<Vacana>,
}

impl Default for TinantaArgsBuilder {
    fn default() -> (b: Self)
        ensures
            b.spec_prayoga() is None,
            b.spec_purusha() is None,
            b.spec_lakara() is None,
            b.spec_vacana() is None,
    {
        TinantaArgsBuilder { prayoga: None, purusha: None, lakara: None, vacana: None }
    }
}

impl TinantaArgsBuilder {
    /// The prayoga set so far.
    pub closed spec fn spec_prayoga(&self) -> Option<Prayoga> {
        self.prayoga
    }

    /// The purusha set so far.
    pub closed spec fn spec_purusha(&self) -> Option<Purusha> {
        self.purusha
    }

    /// The lakara set so far.
    pub closed spec fn spec_lakara(&self) -> Option<Lakara> {
        self.lakara
    }

    /// The vacana set so far.
    pub closed spec fn spec_vacana(&self) -> Option<Vacana> {
        self.vacana
    }

    /// Sets the prayoga to use in the derivation.
    pub fn prayoga(&mut self, val: Prayoga) -> (r: &mut Self)
        ensures
            r.spec_prayoga() == Some(val),
            r.spec_purusha() == old(self).spec_purusha(),
            r.spec_lakara() == old(self).spec_lakara(),
            r.spec_vacana() == old(self).spec_vacana(),
            *final(self) == *final(r),
    {
        self.prayoga = Some(val);
        self
    }

    /// Sets the purusha to use in the derivation.
    pub fn purusha(&mut self, val: Purusha) -> (r: &mut Self)
        ensures
            r.spec_prayoga() == old(self).spec_prayoga(),
            r.spec_purusha() == Some(val),
            r.spec_lakara() == old(self).spec_lakara(),
            r.spec_vacana() == old(self).spec_vacana(),
            *final(self) == *final(r),
    {
        self.purusha = Some(val);
        self
    }

    /// Sets the lakara to use in the derivation.
    pub fn lakara(&mut self, val: Lakara) -> (r: &mut Self)
        ensures
            r.spec_prayoga() == old(self).spec_prayoga(),
            r.spec_purusha() == old(self).spec_purusha(),
            r.spec_lakara() == Some(val),
            r.spec_vacana() == old(self).spec_vacana(),
            *final(self) == *final(r),
    {
        self.lakara = Some(val);
        self
    }

    /// Sets the vacana to use in the derivation.
    pub fn vacana(&mut self, val: Vacana) -> (r: &mut Self)
        ensures
            r.spec_prayoga() == old(self).spec_prayoga(),
            r.spec_purusha() == old(self).spec_purusha(),
            r.spec_lakara() == old(self).spec_lakara(),
            r.spec_vacana() == Some(val),
            *final(self) == *final(r),
    {
        self.vacana = Some(val);
        self
    }

    /// Converts the arguments in this builder into a `TinantaArgs` struct.
    ///
    /// `build()` will fail if any args are missing.
    pub fn build(&self) -> (r: Result<TinantaArgs, ArgumentError>)
        ensures
            r is Ok <==> (self.spec_prayoga() is Some && self.spec_purusha() is Some
                && self.spec_lakara() is Some && self.spec_vacana() is Some),
            r matches Ok(a) ==> Some(a.spec_prayoga()) == self.spec_prayoga() && Some(
                a.spec_purusha(),
            ) == self.spec_purusha() && Some(a.spec_lakara()) == self.spec_lakara() && Some(
                a.spec_vacana(),
            ) == self.spec_vacana(),
            r matches Err(e) ==> e.message() == "foo"@,
    {
        Ok(
            TinantaArgs {
                prayoga: match self.prayoga {
                    Some(x) => x,
                    _ => return Err(ArgumentError::new("foo")),
                },
                purusha: match self.purusha {
                    Some(x) => x,
                    _ => return Err(ArgumentError::new("foo")),
                },
                lakara: match self.lakara {
                    Some(x) => x,
                    _ => return Err(ArgumentError::new("foo")),
                },
                vacana: match self.vacana {
                    Some(x) => x,
                    _ => return Err(ArgumentError::new("foo")),
                },
            },
        )
    }
}

} // verus!
