//! Utility functions for working with the Dhatupatha.
use crate::term::Term;
use vstd::prelude::*;

verus! {

/// Returns whether `t` is one of the kuTAdi dhatus: numbers 93 to 137 of the tudAdi gana.
/// The number is checked because some roots repeat within tudAdi outside this group.
pub fn is_kutadi(t: &Term) -> (r: bool)
    ensures
        r == (t.gana == Some(6i32) && (t.number matches Some(n) && 93 <= n <= 137)),
{
    match t.number {
        Some(n) => t.has_gana(6) && 93 <= n && n <= 137,
        _ => false,
    }
}

} // verus!
