//! Structured arguments
use crate::constants::Tag;
use crate::strings;
use std::str::FromStr;
use vstd::prelude::*;

verus! {

/// The prayoga of some tinanta.
#[derive(Clone, Copy, Debug, Eq, PartialEq, Structural)]
pub enum Prayoga {
    Kartari,
    Karmani,
    Bhave,
}

impl Prayoga {
    /// The string that `as_str` returns for this value.
    pub open spec fn spec_str(self) -> Seq<char> {
        match self {
            Prayoga::Kartari => seq!['k', 'a', 'r', 't', 'a', 'r', 'i'],
            Prayoga::Karmani => seq!['k', 'a', 'r', 'm', 'a', 'n', 'i'],
            Prayoga::Bhave => seq!['b', 'h', 'a', 'v', 'e'],
        }
    }

    /// The value whose string is `s`, if any.
    pub open spec fn from_code(s: Seq<char>) -> Option<Prayoga> {
        if s == seq!['k', 'a', 'r', 't', 'a', 'r', 'i'] {
            Some(Prayoga::Kartari)
        } else if s == seq!['k', 'a', 'r', 'm', 'a', 'n', 'i'] {
            Some(Prayoga::Karmani)
        } else if s == seq!['b', 'h', 'a', 'v', 'e'] {
            Some(Prayoga::Bhave)
        } else {
            None
        }
    }

    /// Returns the tag that marks this value.
    pub fn as_tag(&self) -> (r: Tag)
        ensures
            r == match self {
                Prayoga::Kartari => Tag::Kartari,
                Prayoga::Karmani => Tag::Karmani,
                Prayoga::Bhave => Tag::Bhave,
            },
    {
        match self {
            Self::Kartari => Tag::Kartari,
            Self::Karmani => Tag::Karmani,
            Self::Bhave => Tag::Bhave,
        }
    }

    /// Returns a simple human-readable string that represents this enum's value.
    pub fn as_str(&self) -> (r: &'static str)
        ensures
            r@ == self.spec_str(),
    {
        match self {
            Self::Kartari => {
                proof {
                    reveal_strlit("kartari");
                    assert("kartari"@ =~= seq!['k', 'a', 'r', 't', 'a', 'r', 'i']);
                }
                "kartari"
            },
            Self::Karmani => {
                proof {
                    reveal_strlit("karmani");
                    assert("karmani"@ =~= seq!['k', 'a', 'r', 'm', 'a', 'n', 'i']);
                }
                "karmani"
            },
            Self::Bhave => {
                proof {
                    reveal_strlit("bhave");
                    assert("bhave"@ =~= seq!['b', 'h', 'a', 'v', 'e']);
                }
                "bhave"
            },
        }
    }

    /// Parses the string that `as_str` gives for a value, as `FromStr` does: `from_code`.
    pub fn parse_code(s: &str) -> (r: Result<Self, &'static str>)
        ensures
            match r {
                Ok(v) => Self::from_code(s@) == Some(v),
                Err(e) => Self::from_code(s@) is None && e@ == "Could not parse Prayoga"@,
            },
    {
        proof {
            reveal_strlit("kartari");
            assert("kartari"@ =~= seq!['k', 'a', 'r', 't', 'a', 'r', 'i']);
            reveal_strlit("karmani");
            assert("karmani"@ =~= seq!['k', 'a', 'r', 'm', 'a', 'n', 'i']);
            reveal_strlit("bhave");
            assert("bhave"@ =~= seq!['b', 'h', 'a', 'v', 'e']);
        }
        if strings::str_eq(s, "kartari") {
            Ok(Self::Kartari)
        } else if strings::str_eq(s, "karmani") {
            Ok(Self::Karmani)
        } else if strings::str_eq(s, "bhave") {
            Ok(Self::Bhave)
        } else {
            Err("Could not parse Prayoga")
        }
    }
}

impl FromStr for Prayoga {
    type Err = &'static str;

    fn from_str(s: &str) -> Result<Self, Self::Err> {
        Self::parse_code(s)
    }
}

/// Parsing the string of a value gives the value back.
pub proof fn lemma_prayoga_str_round_trip(v: Prayoga)
    ensures
        Prayoga::from_code(v.spec_str()) == Some(v),
{
}

/// The person of some tinanta.
#[derive(Clone, Copy, Debug, Eq, PartialEq, Structural)]
pub enum Purusha {
    Prathama,
    Madhyama,
    Uttama,
}

impl Purusha {
    /// The string that `as_str` returns for this value.
    pub open spec fn spec_str(self) -> Seq<char> {
        match self {
            Purusha::Prathama => seq!['p', 'r', 'a', 't', 'h', 'a', 'm', 'a'],
            Purusha::Madhyama => seq!['m', 'a', 'd', 'h', 'y', 'a', 'm', 'a'],
            Purusha::Uttama => seq!['u', 't', 't', 'a', 'm', 'a'],
        }
    }

    /// The value whose string is `s`, if any.
    pub open spec fn from_code(s: Seq<char>) -> Option<Purusha> {
        if s == seq!['p', 'r', 'a', 't', 'h', 'a', 'm', 'a'] {
            Some(Purusha::Prathama)
        } else if s == seq!['m', 'a', 'd', 'h', 'y', 'a', 'm', 'a'] {
            Some(Purusha::Madhyama)
        } else if s == seq!['u', 't', 't', 'a', 'm', 'a'] {
            Some(Purusha::Uttama)
        } else {
            None
        }
    }

    /// Returns the tag that marks this value.
    pub fn as_tag(&self) -> (r: Tag)
        ensures
            r == match self {
                Purusha::Prathama => Tag::Prathama,
                Purusha::Madhyama => Tag::Madhyama,
                Purusha::Uttama => Tag::Uttama,
            },
    {
        match self {
            Self::Prathama => Tag::Prathama,
            Self::Madhyama => Tag::Madhyama,
            Self::Uttama => Tag::Uttama,
        }
    }

    /// Returns a simple human-readable string that represents this enum's value.
    pub fn as_str(&self) -> (r: &'static str)
        ensures
            r@ == self.spec_str(),
    {
        match self {
            Self::Prathama => {
                proof {
                    reveal_strlit("prathama");
                    assert("prathama"@ =~= seq!['p', 'r', 'a', 't', 'h', 'a', 'm', 'a']);
                }
                "prathama"
            },
            Self::Madhyama => {
                proof {
                    reveal_strlit("madhyama");
                    assert("madhyama"@ =~= seq!['m', 'a', 'd', 'h', 'y', 'a', 'm', 'a']);
                }
                "madhyama"
            },
            Self::Uttama => {
                proof {
                    reveal_strlit("uttama");
                    assert("uttama"@ =~= seq!['u', 't', 't', 'a', 'm', 'a']);
                }
                "uttama"
            },
        }
    }

    /// Parses the string that `as_str` gives for a value, as `FromStr` does: `from_code`.
    pub fn parse_code(s: &str) -> (r: Result<Self, &'static str>)
        ensures
            match r {
                Ok(v) => Self::from_code(s@) == Some(v),
                Err(e) => Self::from_code(s@) is None && e@ == "Could not parse Purusha"@,
            },
    {
        proof {
            reveal_strlit("prathama");
            assert("prathama"@ =~= seq!['p', 'r', 'a', 't', 'h', 'a', 'm', 'a']);
            reveal_strlit("madhyama");
            assert("madhyama"@ =~= seq!['m', 'a', 'd', 'h', 'y', 'a', 'm', 'a']);
            reveal_strlit("uttama");
            assert("uttama"@ =~= seq!['u', 't', 't', 'a', 'm', 'a']);
        }
        if strings::str_eq(s, "prathama") {
            Ok(Self::Prathama)
        } else if strings::str_eq(s, "madhyama") {
            Ok(Self::Madhyama)
        } else if strings::str_eq(s, "uttama") {
            Ok(Self::Uttama)
        } else {
            Err("Could not parse Purusha")
        }
    }
}

impl FromStr for Purusha {
    type Err = &'static str;

    fn from_str(s: &str) -> Result<Self, Self::Err> {
        Self::parse_code(s)
    }
}

/// Parsing the string of a value gives the value back.
pub proof fn lemma_purusha_str_round_trip(v: Purusha)
    ensures
        Purusha::from_code(v.spec_str()) == Some(v),
{
}

/// The number of some tinanta or subanta.
#[derive(Clone, Copy, Debug, Eq, PartialEq, Structural)]
pub enum Vacana {
    Eka,
    Dvi,
    Bahu,
}

impl Vacana {
    /// The string that `as_str` returns for this value.
    pub open spec fn spec_str(self) -> Seq<char> {
        match self {
            Vacana::Eka => seq!['e', 'k', 'a'],
            Vacana::Dvi => seq!['d', 'v', 'i'],
            Vacana::Bahu => seq!['b', 'a', 'h', 'u'],
        }
    }

    /// The value whose string is `s`, if any.
    pub open spec fn from_code(s: Seq<char>) -> Option<Vacana> {
        if s == seq!['e', 'k', 'a'] {
            Some(Vacana::Eka)
        } else if s == seq!['d', 'v', 'i'] {
            Some(Vacana::Dvi)
        } else if s == seq!['b', 'a', 'h', 'u'] {
            Some(Vacana::Bahu)
        } else {
            None
        }
    }

    /// Returns the tag that marks this value.
    pub fn as_tag(&self) -> (r: Tag)
        ensures
            r == match self {
                Vacana::Eka => Tag::Ekavacana,
                Vacana::Dvi => Tag::Dvivacana,
                Vacana::Bahu => Tag::Bahuvacana,
            },
    {
        match self {
            Self::Eka => Tag::Ekavacana,
            Self::Dvi => Tag::Dvivacana,
            Self::Bahu => Tag::Bahuvacana,
        }
    }

    /// Returns a simple human-readable string that represents this enum's value.
    pub fn as_str(&self) -> (r: &'static str)
        ensures
            r@ == self.spec_str(),
    {
        match self {
            Self::Eka => {
                proof {
                    reveal_strlit("eka");
                    assert("eka"@ =~= seq!['e', 'k', 'a']);
                }
                "eka"
            },
            Self::Dvi => {
                proof {
                    reveal_strlit("dvi");
                    assert("dvi"@ =~= seq!['d', 'v', 'i']);
                }
                "dvi"
            },
            Self::Bahu => {
                proof {
                    reveal_strlit("bahu");
                    assert("bahu"@ =~= seq!['b', 'a', 'h', 'u']);
                }
                "bahu"
            },
        }
    }

    /// Parses the string that `as_str` gives for a value, as `FromStr` does: `from_code`.
    pub fn parse_code(s: &str) -> (r: Result<Self, &'static str>)
        ensures
            match r {
                Ok(v) => Self::from_code(s@) == Some(v),
                Err(e) => Self::from_code(s@) is None && e@ == "Could not parse Vacana"@,
            },
    {
        proof {
            reveal_strlit("eka");
            assert("eka"@ =~= seq!['e', 'k', 'a']);
            reveal_strlit("dvi");
            assert("dvi"@ =~= seq!['d', 'v', 'i']);
            reveal_strlit("bahu");
            assert("bahu"@ =~= seq!['b', 'a', 'h', 'u']);
        }
        if strings::str_eq(s, "eka") {
            Ok(Self::Eka)
        } else if strings::str_eq(s, "dvi") {
            Ok(Self::Dvi)
        } else if strings::str_eq(s, "bahu") {
            Ok(Self::Bahu)
        } else {
            Err("Could not parse Vacana")
        }
    }
}

impl FromStr for Vacana {
    type Err = &'static str;

    fn from_str(s: &str) -> Result<Self, Self::Err> {
        Self::parse_code(s)
    }
}

/// Parsing the string of a value gives the value back.
pub proof fn lemma_vacana_str_round_trip(v: Vacana)
    ensures
        Vacana::from_code(v.spec_str()) == Some(v),
{
}

/// The case ending of some subanta.
#[derive(Clone, Copy, Debug, Eq, PartialEq, Structural)]
pub enum Vibhakti {
    Prathama,
    Dvitiya,
    Trtiya,
    Caturthi,
    Panchami,
    Sasthi,
    Saptami,
}

/// The tense or mood of some tinanta.
#[derive(Clone, Copy, Debug, Eq, PartialEq, Structural)]
pub enum La {
    Lat,
    Lit,
    Lut,
    Lrt,
    Let,
    Lot,
    Lan,
    VidhiLin,
    AshirLin,
    Lun,
    Lrn,
}

impl La {
    /// The string that `as_str` returns for this value.
    pub open spec fn spec_str(self) -> Seq<char> {
        match self {
            La::Lat => seq!['l', 'a', 't'],
            La::Lit => seq!['l', 'i', 't'],
            La::Lut => seq!['l', 'u', 't'],
            La::Lrt => seq!['l', 'r', 't'],
            La::Let => seq!['l', 'e', 't'],
            La::Lot => seq!['l', 'o', 't'],
            La::Lan => seq!['l', 'a', 'n'],
            La::VidhiLin => seq!['v', 'i', 'd', 'h', 'i', '-', 'l', 'i', 'n'],
            La::AshirLin => seq!['a', 's', 'h', 'i', 'r', '-', 'l', 'i', 'n'],
            La::Lun => seq!['l', 'u', 'n'],
            La::Lrn => seq!['l', 'r', 'n'],
        }
    }

    /// The value whose string is `s`, if any.
    pub open spec fn from_code(s: Seq<char>) -> Option<La> {
        if s == seq!['l', 'a', 't'] {
            Some(La::Lat)
        } else if s == seq!['l', 'i', 't'] {
            Some(La::Lit)
        } else if s == seq!['l', 'u', 't'] {
            Some(La::Lut)
        } else if s == seq!['l', 'r', 't'] {
            Some(La::Lrt)
        } else if s == seq!['l', 'e', 't'] {
            Some(La::Let)
        } else if s == seq!['l', 'o', 't'] {
            Some(La::Lot)
        } else if s == seq!['l', 'a', 'n'] {
            Some(La::Lan)
        } else if s == seq!['v', 'i', 'd', 'h', 'i', '-', 'l', 'i', 'n'] {
            Some(La::VidhiLin)
        } else if s == seq!['a', 's', 'h', 'i', 'r', '-', 'l', 'i', 'n'] {
            Some(La::AshirLin)
        } else if s == seq!['l', 'u', 'n'] {
            Some(La::Lun)
        } else if s == seq!['l', 'r', 'n'] {
            Some(La::Lrn)
        } else {
            None
        }
    }

    /// Returns a simple human-readable string that represents this enum's value.
    pub fn as_str(&self) -> (r: &'static str)
        ensures
            r@ == self.spec_str(),
    {
        match self {
            Self::Lat => {
                proof {
                    reveal_strlit("lat");
                    assert("lat"@ =~= seq!['l', 'a', 't']);
                }
                "lat"
            },
            Self::Lit => {
                proof {
                    reveal_strlit("lit");
                    assert("lit"@ =~= seq!['l', 'i', 't']);
                }
                "lit"
            },
            Self::Lut => {
                proof {
                    reveal_strlit("lut");
                    assert("lut"@ =~= seq!['l', 'u', 't']);
                }
                "lut"
            },
            Self::Lrt => {
                proof {
                    reveal_strlit("lrt");
                    assert("lrt"@ =~= seq!['l', 'r', 't']);
                }
                "lrt"
            },
            Self::Let => {
                proof {
                    reveal_strlit("let");
                    assert("let"@ =~= seq!['l', 'e', 't']);
                }
                "let"
            },
            Self::Lot => {
                proof {
                    reveal_strlit("lot");
                    assert("lot"@ =~= seq!['l', 'o', 't']);
                }
                "lot"
            },
            Self::Lan => {
                proof {
                    reveal_strlit("lan");
                    assert("lan"@ =~= seq!['l', 'a', 'n']);
                }
                "lan"
            },
            Self::VidhiLin => {
                proof {
                    reveal_strlit("vidhi-lin");
                    assert("vidhi-lin"@ =~= seq!['v', 'i', 'd', 'h', 'i', '-', 'l', 'i', 'n']);
                }
                "vidhi-lin"
            },
            Self::AshirLin => {
                proof {
                    reveal_strlit("ashir-lin");
                    assert("ashir-lin"@ =~= seq!['a', 's', 'h', 'i', 'r', '-', 'l', 'i', 'n']);
                }
                "ashir-lin"
            },
            Self::Lun => {
                proof {
                    reveal_strlit("lun");
                    assert("lun"@ =~= seq!['l', 'u', 'n']);
                }
                "lun"
            },
            Self::Lrn => {
                proof {
                    reveal_strlit("lrn");
                    assert("lrn"@ =~= seq!['l', 'r', 'n']);
                }
                "lrn"
            },
        }
    }

    /// Parses the string that `as_str` gives for a value, as `FromStr` does: `from_code`.
    pub fn parse_code(s: &str) -> (r: Result<Self, &'static str>)
        ensures
            match r {
                Ok(v) => Self::from_code(s@) == Some(v),
                Err(e) => Self::from_code(s@) is None && e@ == "Could not parse La"@,
            },
    {
        proof {
            reveal_strlit("lat");
            assert("lat"@ =~= seq!['l', 'a', 't']);
            reveal_strlit("lit");
            assert("lit"@ =~= seq!['l', 'i', 't']);
            reveal_strlit("lut");
            assert("lut"@ =~= seq!['l', 'u', 't']);
            reveal_strlit("lrt");
            assert("lrt"@ =~= seq!['l', 'r', 't']);
            reveal_strlit("let");
            assert("let"@ =~= seq!['l', 'e', 't']);
            reveal_strlit("lot");
            assert("lot"@ =~= seq!['l', 'o', 't']);
            reveal_strlit("lan");
            assert("lan"@ =~= seq!['l', 'a', 'n']);
            reveal_strlit("vidhi-lin");
            assert("vidhi-lin"@ =~= seq!['v', 'i', 'd', 'h', 'i', '-', 'l', 'i', 'n']);
            reveal_strlit("ashir-lin");
            assert("ashir-lin"@ =~= seq!['a', 's', 'h', 'i', 'r', '-', 'l', 'i', 'n']);
            reveal_strlit("lun");
            assert("lun"@ =~= seq!['l', 'u', 'n']);
            reveal_strlit("lrn");
            assert("lrn"@ =~= seq!['l', 'r', 'n']);
        }
        if strings::str_eq(s, "lat") {
            Ok(Self::Lat)
        } else if strings::str_eq(s, "lit") {
            Ok(Self::Lit)
        } else if strings::str_eq(s, "lut") {
            Ok(Self::Lut)
        } else if strings::str_eq(s, "lrt") {
            Ok(Self::Lrt)
        } else if strings::str_eq(s, "let") {
            Ok(Self::Let)
        } else if strings::str_eq(s, "lot") {
            Ok(Self::Lot)
        } else if strings::str_eq(s, "lan") {
            Ok(Self::Lan)
        } else if strings::str_eq(s, "vidhi-lin") {
            Ok(Self::VidhiLin)
        } else if strings::str_eq(s, "ashir-lin") {
            Ok(Self::AshirLin)
        } else if strings::str_eq(s, "lun") {
            Ok(Self::Lun)
        } else if strings::str_eq(s, "lrn") {
            Ok(Self::Lrn)
        } else {
            Err("Could not parse La")
        }
    }
}

impl FromStr for La {
    type Err = &'static str;

    fn from_str(s: &str) -> Result<Self, Self::Err> {
        Self::parse_code(s)
    }
}

/// Parsing the string of a value gives the value back.
pub proof fn lemma_la_str_round_trip(v: La)
    ensures
        La::from_code(v.spec_str()) == Some(v),
{
}


impl La {
    /// Whether this lakara is Nit.
    pub open spec fn spec_is_nit(self) -> bool {
        self is Lan || self is AshirLin || self is VidhiLin || self is Lun || self is Lrn
    }

    /// Whether this lakara is termed sArvadhAtuka.
    pub open spec fn spec_is_sarvadhatuka(self) -> bool {
        self is Lat || self is Lot || self is Lan || self is VidhiLin
    }

    /// Returns whether or not this lakara is Nit.
    pub fn is_nit(&self) -> (r: bool)
        ensures
            r == self.spec_is_nit(),
    {
        matches!(self, La::Lan | La::AshirLin | La::VidhiLin | La::Lun | La::Lrn)
    }

    /// Returns whether or not this lakara will be termed sArvadhAtuka.
    pub fn is_sarvadhatuka(&self) -> (r: bool)
        ensures
            r == self.spec_is_sarvadhatuka(),
    {
        matches!(self, La::Lat | La::Lot | La::Lan | La::VidhiLin)
    }

    /// Returns whether or not this lakara will be termed ArdhadhAtuka.
    pub fn is_ardhadhatuka(&self) -> (r: bool)
        ensures
            r == !self.spec_is_sarvadhatuka(),
    {
        !self.is_sarvadhatuka()
    }
}

} // verus!
