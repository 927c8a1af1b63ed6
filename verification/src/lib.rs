//! Derivation of Sanskrit words by the rules of Paninian grammar.
use vstd::prelude::*;

pub mod abhyasasya;
pub mod ac_sandhi;
pub mod angasya;
pub mod ardhadhatuka;
pub mod args;
pub mod arguments;
pub mod ashtadhyayi;
pub mod asiddhavat;
pub mod char_view;
pub mod constants;
pub mod dhatu_karya;
pub mod dvitva;
pub mod dhatupatha;
pub mod filters;
pub mod it_agama;
pub mod it_samjna;
pub mod la_karya;
pub mod operations;
pub mod operators;
pub mod prakriya;
pub mod samjna;
pub mod sanadi;
pub mod sounds;
pub mod strings;
pub mod sup_adesha;
pub mod term;
pub mod tin_pratyaya;
pub mod tripadi;
pub mod vikarana;

verus! {
} // verus!
