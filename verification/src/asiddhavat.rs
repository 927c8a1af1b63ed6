//! Rules that are asiddhavat (6.4.22 - 6.4.175).
use crate::prakriya::concat_texts;
use crate::sounds::{lemma_one_word, spec_s, valid_sound_list};
use crate::sounds;
use crate::term::Term;
use vstd::prelude::*;

verus! {

/// The consonants: the pratyahara `hal`.
pub open spec fn hal() -> Set<char> {
    spec_s("hal"@)
}

pub(crate) proof fn lemma_hal()
    ensures
        valid_sound_list("hal"@),
{
    reveal_strlit("hal");
    lemma_one_word("hal"@);
    reveal_with_fuel(crate::sounds::sutra_with, 6);
    assert(crate::sounds::sutra_with('h', 0) < 14);
}

/// The sounds of `hal` are the consonants.
pub proof fn lemma_hal_is_consonants(c: char)
    ensures
        hal().contains(c) == crate::sounds::spec_is_hal(c),
{
    lemma_hal();
    reveal_strlit("hal");
    let w = "hal"@;
    assert(w == seq!['h', 'a', 'l']);
    lemma_one_word(w);
    assert(crate::sounds::word_sounds(w) == crate::sounds::spec_pratyahara(w));
    reveal_with_fuel(crate::sounds::sutra_with, 6);
    reveal_with_fuel(crate::sounds::sutra_ending_in, 11);
    assert(crate::sounds::sutra_with('h', 0) == 4);
    assert(crate::sounds::index_from(crate::sounds::shiva_sutras()[4].0, 'h', 0) == 0);
    assert(crate::sounds::sutra_ending_in('l', 4) == 13);
    let set = crate::sounds::pratyahara_sounds('h', 'l', false);
    assert(crate::sounds::spec_pratyahara(w) == set);
    assert(hal() =~= set) by {
        assert forall|x: char| hal().contains(x) implies set.contains(x) by {
            let k = choose|k: int| 0 <= k < crate::sounds::words(w).len()
                && #[trigger] crate::sounds::word_sounds(crate::sounds::words(w)[k]).contains(x);
            assert(k == 0);
        }
        assert forall|x: char| set.contains(x) implies hal().contains(x) by {
            assert(crate::sounds::word_sounds(crate::sounds::words(w)[0]).contains(x));
        }
    }
    let ss = crate::sounds::shiva_sutras();
    if crate::sounds::spec_is_hal(c) {
        let (k, j): (int, int) = if c == 'h' {
            (4, 0)
        } else if c == 'y' {
            (4, 1)
        } else if c == 'v' {
            (4, 2)
        } else if c == 'r' {
            (4, 3)
        } else if c == 'l' {
            (5, 0)
        } else if c == 'Y' {
            (6, 0)
        } else if c == 'm' {
            (6, 1)
        } else if c == 'N' {
            (6, 2)
        } else if c == 'R' {
            (6, 3)
        } else if c == 'n' {
            (6, 4)
        } else if c == 'J' {
            (7, 0)
        } else if c == 'B' {
            (7, 1)
        } else if c == 'G' {
            (8, 0)
        } else if c == 'Q' {
            (8, 1)
        } else if c == 'D' {
            (8, 2)
        } else if c == 'j' {
            (9, 0)
        } else if c == 'b' {
            (9, 1)
        } else if c == 'g' {
            (9, 2)
        } else if c == 'q' {
            (9, 3)
        } else if c == 'd' {
            (9, 4)
        } else if c == 'K' {
            (10, 0)
        } else if c == 'P' {
            (10, 1)
        } else if c == 'C' {
            (10, 2)
        } else if c == 'W' {
            (10, 3)
        } else if c == 'T' {
            (10, 4)
        } else if c == 'c' {
            (10, 5)
        } else if c == 'w' {
            (10, 6)
        } else if c == 't' {
            (10, 7)
        } else if c == 'k' {
            (11, 0)
        } else if c == 'p' {
            (11, 1)
        } else if c == 'S' {
            (12, 0)
        } else if c == 'z' {
            (12, 1)
        } else {
            (12, 2)
        };
        assert(crate::sounds::sound_or_long_at(k, j, c));
        assert(set.contains(c));
    } else {
        if set.contains(c) {
            let (k, j) = choose|k: int, j: int|
                4 <= k <= 13 && 0 <= j < ss[k].0.len() && (k > 4 || j >= 0)
                    && #[trigger] crate::sounds::sound_or_long_at(k, j, c);
            assert(4 <= k <= 13);
            assert(ss[k].0[j] == c || (crate::sounds::spec_is_hrasva(ss[k].0[j])
                && crate::sounds::spec_to_dirgha(ss[k].0[j]) == Some(c)));
            if k == 4 {
            } else if k == 5 {
            } else if k == 6 {
            } else if k == 7 {
            } else if k == 8 {
            } else if k == 9 {
            } else if k == 10 {
            } else if k == 11 {
            } else if k == 12 {
            } else {
            }
            assert(false);
        }
    }
}

/// Whether `t` ends in two consonants.
pub open spec fn ends_in_two_hals(t: Seq<char>) -> bool {
    t.len() >= 2 && hal().contains(t[t.len() - 1]) && hal().contains(t[t.len() - 2])
}

/// Returns whether the joined text of `slice` ends in a conjunct of consonants (1.1.7).
pub fn is_samyogapurva(slice: &[Term]) -> (r: bool)
    ensures
        r == ends_in_two_hals(concat_texts(slice@)),
        r == crate::sounds::spec_is_samyoganta(concat_texts(slice@)),
{
    proof {
        lemma_hal();
        let t = concat_texts(slice@);
        if t.len() >= 2 {
            lemma_hal_is_consonants(t[t.len() - 1]);
            lemma_hal_is_consonants(t[t.len() - 2]);
        }
    }
    let hal_set = sounds::s("hal");
    let ghost whole = concat_texts(slice@);
    let mut num_hal: u8 = 0;
    let mut j: usize = slice.len();
    // `whole` is `concat_texts(slice[..j])` followed by the sounds already read, `suf`.
    let ghost mut suf: Seq<char> = Seq::empty();
    assert(slice@.subrange(0, j as int) =~= slice@);
    assert(whole =~= concat_texts(slice@.subrange(0, j as int)) + suf);
    while j > 0
        invariant
            j <= slice@.len(),
            hal_set@ == hal(),
            whole == concat_texts(slice@),
            ends_in_two_hals(whole) == crate::sounds::spec_is_samyoganta(whole),
            whole == concat_texts(slice@.subrange(0, j as int)) + suf,
            num_hal as int == suf.len(),
            suf.len() < 2,
            forall|k: int| 0 <= k < suf.len() ==> hal().contains(#[trigger] suf[k]),
        decreases j,
    {
        let t = &slice[j - 1];
        let ghost before = concat_texts(slice@.subrange(0, j - 1));
        assert(slice@.subrange(0, j as int).drop_last() =~= slice@.subrange(0, j - 1));
        assert(slice@.subrange(0, j as int).last() == slice@[j - 1]);
        let text = t.text.as_str();
        let mut c: usize = text.unicode_len();
        assert(text@.subrange(0, c as int) =~= text@);
        while c > 0
            invariant
                c <= text@.len(),
                hal_set@ == hal(),
                whole == concat_texts(slice@),
                ends_in_two_hals(whole) == crate::sounds::spec_is_samyoganta(whole),
                whole == before + text@.subrange(0, c as int) + suf,
                num_hal as int == suf.len(),
                suf.len() < 2,
                forall|k: int| 0 <= k < suf.len() ==> hal().contains(#[trigger] suf[k]),
            decreases c,
        {
            let x = text.get_char(c - 1);
            let ghost pre = before + text@.subrange(0, c - 1);
            assert(before + text@.subrange(0, c as int) =~= pre.push(x));
            if hal_set.contains_char(x) {
                num_hal = num_hal + 1;
                proof {
                    suf = seq![x] + suf;
                    assert(whole =~= pre + suf);
                }
                if num_hal >= 2 {
                    assert(whole[whole.len() - 1] == suf[1]);
                    assert(whole[whole.len() - 2] == suf[0]);
                    return true;
                }
            } else {
                assert(whole =~= pre + seq![x] + suf);
                assert(whole[whole.len() - 1 - suf.len()] == x);
                return false;
            }
            c = c - 1;
        }
        assert(text@.subrange(0, 0) =~= Seq::<char>::empty());
        assert(before + Seq::<char>::empty() =~= before);
        j = j - 1;
    }
    assert(slice@.subrange(0, 0) =~= Seq::<Term>::empty());
    assert(whole =~= suf);
    false
}

} // verus!
