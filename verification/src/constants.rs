//! Tags, the grammatical conditions that a `Term` or a `Prakriya` can carry.
use crate::strings;
use vstd::prelude::*;

verus! {

/// Indicates a failure to parse a string representation of some `semantics` enum.
#[derive(Debug, Clone)]
pub struct PrakriyaError {
    /// The error message.
    msg: String,
}

impl PrakriyaError {
    pub(crate) fn new(s: &str) -> (e: Self)
        ensures
            e.message() == s@,
    {
        PrakriyaError { msg: strings::string_from(s) }
    }

    /// The view of this error: its message.
    pub closed spec fn message(&self) -> Seq<char> {
        self.msg@
    }

    /// Returns the error message.
    pub fn to_string(&self) -> (r: String)
        ensures
            r@ == self.message(),
    {
        self.msg.clone()
    }
}

/// The prayoga of some tinanta.
#[derive(Clone, Copy, Debug, Eq, PartialEq, Structural)]
pub enum Prayoga {
    Kartari,
    Karmani,
    Bhave,
}

impl Prayoga {
    /// Returns the tag that marks this prayoga.
    pub fn as_tag(&self) -> (r: Tag)
        ensures
            r == match self {
                Prayoga::Kartari => Tag::Kartari,
                Prayoga::Karmani => Tag::Karmani,
                Prayoga::Bhave => Tag::Bhave,
            },
    {
        match self {
            Self::Kartari => Tag::Kartari,
            Self::Karmani => Tag::Karmani,
            Self::Bhave => Tag::Bhave,
        }
    }
}

/// The person of some tinanta.
#[derive(Clone, Copy, Debug, Eq, PartialEq, Structural)]
pub enum Purusha {
    Prathama,
    Madhyama,
    Uttama,
}

impl Purusha {
    /// Returns the tag that marks this purusha.
    pub fn as_tag(&self) -> (r: Tag)
        ensures
            r == match self {
                Purusha::Prathama => Tag::Prathama,
                Purusha::Madhyama => Tag::Madhyama,
                Purusha::Uttama => Tag::Uttama,
            },
    {
        match self {
            Self::Prathama => Tag::Prathama,
            Self::Madhyama => Tag::Madhyama,
            Self::Uttama => Tag::Uttama,
        }
    }
}

/// The number of some tinanta or subanta.
#[derive(Clone, Copy, Debug, Eq, PartialEq, Structural)]
pub enum Vacana {
    Eka,
    Dvi,
    Bahu,
}

impl Vacana {
    /// Returns the tag that marks this vacana.
    pub fn as_tag(&self) -> (r: Tag)
        ensures
            r == match self {
                Vacana::Eka => Tag::Ekavacana,
                Vacana::Dvi => Tag::Dvivacana,
                Vacana::Bahu => Tag::Bahuvacana,
            },
    {
        match self {
            Self::Eka => Tag::Ekavacana,
            Self::Dvi => Tag::Dvivacana,
            Self::Bahu => Tag::Bahuvacana,
        }
    }
}

/// The tense or mood of some tinanta.
#[derive(Clone, Copy, Debug, Eq, PartialEq, Structural)]
pub enum La {
    Lat,
    Lit,
    Lut,
    Lrt,
    Let,
    Lot,
    Lan,
    VidhiLin,
    AshirLin,
    Lun,
    Lrn,
}

impl La {
    /// Whether this lakara is Nit.
    pub open spec fn spec_is_nit(self) -> bool {
        self is Lan || self is AshirLin || self is VidhiLin || self is Lun || self is Lrn
    }

    /// Whether this lakara is termed sArvadhAtuka.
    pub open spec fn spec_is_sarvadhatuka(self) -> bool {
        self is Lat || self is Lot || self is Lan || self is VidhiLin
    }

    /// Returns whether or not this lakara is Nit.
    pub fn is_nit(&self) -> (r: bool)
        ensures
            r == self.spec_is_nit(),
    {
        matches!(self, La::Lan | La::AshirLin | La::VidhiLin | La::Lun | La::Lrn)
    }

    /// Returns whether or not this lakara will be termed sArvadhAtuka.
    pub fn is_sarvadhatuka(&self) -> (r: bool)
        ensures
            r == self.spec_is_sarvadhatuka(),
    {
        matches!(self, La::Lat | La::Lot | La::Lan | La::VidhiLin)
    }

    /// Returns whether or not this lakara will be termed ArdhadhAtuka.
    pub fn is_ardhadhatuka(&self) -> (r: bool)
        ensures
            r == !self.spec_is_sarvadhatuka(),
    {
        !self.is_sarvadhatuka()
    }
}

#[allow(non_camel_case_types)]
#[derive(Clone, Copy, Debug, Eq, PartialEq, Hash, Structural)]
pub enum Tag {
    // Morpheme types
    Upasarga,
    Dhatu,
    Ghu,
    Agama,
    Pratyaya,
    Pratipadika,
    Vibhakti,
    Sarvanama,
    Sarvanamasthana,
    Tin,
    Nistha,
    Krt,
    Krtya,
    Sup,
    Taddhita,
    Vikarana,

    // It
    adit,
    Adit,
    idit,
    Idit,
    udit,
    Udit,
    fdit,
    xdit,
    edit,
    odit,
    kit,
    Kit,
    Git,
    Nit,
    cit,
    Cit,
    jit,
    Jit,
    Yit,
    wit,
    qit,
    Qit,
    Rit,
    nit,
    pit,
    Pit,
    mit,
    lit,
    Sit,
    zit,

    irit,
    YIt,
    wvit,
    qvit,

    // Lopa
    Luk,
    Slu,
    Lup,

    // Accent
    Anudatta,
    Svarita,
    anudattet,
    svaritet,

    // Pada
    Parasmaipada,
    Atmanepada,

    // Artha (semantic conditions)
    Ashih,
    Sanartha,
    Yanartha,

    // Dialect conditions
    Chandasi,

    // Prayoga
    Kartari,
    Bhave,
    Karmani,

    // Purusha
    Prathama,
    Madhyama,
    Uttama,

    // Vacana
    Ekavacana,
    Dvivacana,
    Bahuvacana,

    // Vibhakti (subanta)
    V1,
    V2,
    V3,
    V4,
    V5,
    V6,
    V7,

    // Linga (subanta)
    Pum,
    Stri,
    Napumsaka,

    // Stem types
    Nadi,
    Ghi,

    // Vibhakti conditions
    Sambodhana,
    Amantrita,
    Sambuddhi,

    // Dvitva
    Abhyasa,
    Abhyasta,

    // Dhatuka
    Ardhadhatuka,
    Sarvadhatuka,

    // Other flags
    //
    // Certain conditions cross prakaranas in a way that is difficult to track.
    // Since these conditions are limited, we just keep track of them with
    // these flags.

    // Flags on the `Term`:
    FlagGunaApavada,
    FlagGuna,

    // Flags on the `Prakriya`.
    FlagAdeshadi,
    FlagNoArdhadhatuka,
    FlagAnitKsa,
    FlagSetSic,
    FlagAtAgama,
    FlagAtLopa,

    Sat,
    Snam,
}

/// The tag that an it-letter marks, if `it` is one.
pub open spec fn spec_parse_it(it: Seq<char>) -> Option<Tag> {
    if it.len() == 1 {
        match it[0] {
            'a' => Some(Tag::adit),
            'A' => Some(Tag::Adit),
            'i' => Some(Tag::idit),
            'I' => Some(Tag::Idit),
            'u' => Some(Tag::udit),
            'U' => Some(Tag::Udit),
            'f' => Some(Tag::fdit),
            'x' => Some(Tag::xdit),
            'e' => Some(Tag::edit),
            'o' => Some(Tag::odit),
            'k' => Some(Tag::kit),
            'K' => Some(Tag::Kit),
            'G' => Some(Tag::Git),
            'N' => Some(Tag::Nit),
            'c' => Some(Tag::cit),
            'C' => Some(Tag::Cit),
            'j' => Some(Tag::jit),
            'J' => Some(Tag::Jit),
            'Y' => Some(Tag::Yit),
            'w' => Some(Tag::wit),
            'q' => Some(Tag::qit),
            'Q' => Some(Tag::Qit),
            'R' => Some(Tag::Rit),
            'n' => Some(Tag::nit),
            'p' => Some(Tag::pit),
            'P' => Some(Tag::Pit),
            'm' => Some(Tag::mit),
            'l' => Some(Tag::lit),
            'S' => Some(Tag::Sit),
            'z' => Some(Tag::zit),
            _ => None,
        }
    } else {
        None
    }
}

impl Tag {
    /// Returns the tag that the it-letter `it` marks.
    pub fn parse_it(it: &str) -> (r: Result<Tag, PrakriyaError>)
        requires
            spec_parse_it(it@) is Some,
        ensures
            r == Ok::<Tag, PrakriyaError>(spec_parse_it(it@)->0),
    {
        let c = it.get_char(0);
        let res = match c {
        'a' => Tag::adit,
        'A' => Tag::Adit,
        'i' => Tag::idit,
        'I' => Tag::Idit,
        'u' => Tag::udit,
        'U' => Tag::Udit,
        'f' => Tag::fdit,
        'x' => Tag::xdit,
        'e' => Tag::edit,
        'o' => Tag::odit,
        'k' => Tag::kit,
        'K' => Tag::Kit,
        'G' => Tag::Git,
        'N' => Tag::Nit,
        'c' => Tag::cit,
        'C' => Tag::Cit,
        'j' => Tag::jit,
        'J' => Tag::Jit,
        'Y' => Tag::Yit,
        'w' => Tag::wit,
        'q' => Tag::qit,
        'Q' => Tag::Qit,
        'R' => Tag::Rit,
        'n' => Tag::nit,
        'p' => Tag::pit,
        'P' => Tag::Pit,
        'm' => Tag::mit,
        'l' => Tag::lit,
        'S' => Tag::Sit,
        'z' => Tag::zit,
            _ => Tag::zit,
        };
        Ok(res)
    }
}

/// A set of tags.
#[derive(Clone, Debug, PartialEq, Eq)]
pub struct TagSet {
    items: Vec<Tag>,
}

impl View for TagSet {
    type V = Set<Tag>;

    closed spec fn view(&self) -> Set<Tag> {
        Set::new(|t: Tag| self.items@.contains(t))
    }
}

impl TagSet {
    /// Creates an empty set.
    pub fn new() -> (s: Self)
        ensures
            s@ == Set::<Tag>::empty(),
    {
        let s = TagSet { items: Vec::new() };
        assert(s@ =~= Set::<Tag>::empty());
        s
    }

    /// Returns whether `tag` is in the set.
    pub fn contains(&self, tag: Tag) -> (r: bool)
        ensures
            r == self@.contains(tag),
    {
        let mut i: usize = 0;
        while i < self.items.len()
            invariant
                i <= self.items@.len(),
                forall|k: int| 0 <= k < i ==> self.items@[k] != tag,
            decreases self.items@.len() - i,
        {
            if self.items[i] == tag {
                assert(self.items@[i as int] == tag);
                return true;
            }
            i = i + 1;
        }
        false
    }

    /// Adds `tag` to the set.
    pub fn insert(&mut self, tag: Tag)
        ensures
            final(self)@ == old(self)@.insert(tag),
    {
        if !self.contains(tag) {
            self.items.push(tag);
        }
        assert(self@ =~= old(self)@.insert(tag)) by {
            assert forall|t: Tag| self@.contains(t) <==> old(self)@.insert(tag).contains(t) by {
                if t == tag && !old(self)@.contains(tag) {
                    assert(self.items@[self.items@.len() - 1] == tag);
                }
                if old(self).items@.contains(t) {
                    let k = choose|k: int| 0 <= k < old(self).items@.len() && old(self).items@[k] == t;
                    assert(self.items@[k] == t);
                }
            }
        }
    }

    /// Removes `tag` from the set.
    pub fn remove(&mut self, tag: Tag)
        ensures
            final(self)@ == old(self)@.remove(tag),
    {
        let mut kept: Vec<Tag> = Vec::new();
        let mut i: usize = 0;
        while i < self.items.len()
            invariant
                i <= self.items@.len(),
                forall|t: Tag| kept@.contains(t) <==> (t != tag && exists|k: int| 0 <= k < i && self.items@[k] == t),
            decreases self.items@.len() - i,
        {
            let t = self.items[i];
            let ghost prev = kept@;
            if t != tag {
                kept.push(t);
            }
            proof {
                assert forall|u: Tag| kept@.contains(u) <==> (u != tag && exists|k: int| 0 <= k < i + 1 && self.items@[k] == u) by {
                    if u != tag && exists|k: int| 0 <= k < i + 1 && self.items@[k] == u {
                        let k = choose|k: int| 0 <= k < i + 1 && self.items@[k] == u;
                        if k < i {
                            assert(exists|k2: int| 0 <= k2 < i && self.items@[k2] == u);
                            assert(prev.contains(u));
                            let j = choose|j: int| 0 <= j < prev.len() && prev[j] == u;
                            assert(kept@[j] == u);
                        } else {
                            assert(kept@[kept@.len() - 1] == u);
                        }
                    }
                    if kept@.contains(u) {
                        let j = choose|j: int| 0 <= j < kept@.len() && kept@[j] == u;
                        if j < prev.len() {
                            assert(prev[j] == u);
                            assert(prev.contains(u));
                        } else {
                            assert(u == t);
                            assert(self.items@[i as int] == u);
                        }
                    }
                }
            }
            i = i + 1;
        }
        self.items = kept;
        assert(self@ =~= old(self)@.remove(tag));
    }
}

} // verus!
