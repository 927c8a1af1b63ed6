//! Rules that replace a sup-pratyaya (7.1).
use crate::operators::str_index;
use vstd::prelude::*;

verus! {

/// Returns the item of `new` at the position of the first item of `old` that equals
/// `needle`, if any (1.3.10, yathāsaṅkhyam anudeśaḥ samānām).
pub fn yatha(needle: &str, old: &'static [&str], new: &'static [&str]) -> (r: Option<&'static str>)
    requires
        str_index(old@, needle@) < new@.len(),
    ensures
        match r {
            Some(x) => str_index(old@, needle@) >= 0 && x == new@[str_index(old@, needle@)],
            None => str_index(old@, needle@) < 0,
        },
{
    crate::operators::yatha(needle, old, new)
}

} // verus!
