//! Creates the dhatu that a derivation starts with, and runs the rules that apply to it at once.
use crate::constants::{PrakriyaError, Tag as T};
use crate::dvitva::with_tag;
use crate::it_samjna;
use crate::it_samjna::{has_upadesha_at, it_samjna_outcome};
use crate::operations::{insert_after_last_vowel, replace_adi, same_but_text};
use crate::prakriya::{lemma_rewrote_refl, lemma_rewrote_trans, Prakriya};
use crate::sanadi::u_in;
use crate::strings;
use crate::term::{seq_has_str, Term};
use vstd::prelude::*;

verus! {

/// Whether `c` is a decimal digit.
pub open spec fn is_digit(c: char) -> bool {
    48 <= (c as u32) <= 57
}

/// Whether every char of `s` is a decimal digit.
pub open spec fn all_digits(s: Seq<char>) -> bool {
    forall|k: int| 0 <= k < s.len() ==> is_digit(#[trigger] s[k])
}

/// The value of the decimal digits `s`.
pub open spec fn decimal_value(s: Seq<char>) -> int
    decreases s.len(),
{
    if s.len() == 0 {
        0
    } else {
        decimal_value(s.drop_last()) * 10 + ((s.last() as u32) - 48)
    }
}

/// `s` read as an `i32`, as `str::parse` reads it: an optional `+` or `-`, then one or more
/// decimal digits whose value fits; `None` otherwise.
pub open spec fn parse_i32(s: Seq<char>) -> Option<i32> {
    let neg = s.len() > 0 && s[0] == '-';
    let body = if s.len() > 0 && (s[0] == '-' || s[0] == '+') {
        s.drop_first()
    } else {
        s
    };
    let v = if neg {
        -decimal_value(body)
    } else {
        decimal_value(body)
    };
    if body.len() == 0 || !all_digits(body) || v < i32::MIN || v > i32::MAX {
        None
    } else {
        Some(v as i32)
    }
}

/// A bound above the value of any `i32`, where the parser stops counting.
spec fn cap() -> int {
    0x8000_0001
}

proof fn lemma_capped_step(x: int, d: int)
    requires
        x >= 0,
        0 <= d <= 9,
    ensures
        (if (if x < cap() { x } else { cap() }) * 10 + d < cap() {
            (if x < cap() { x } else { cap() }) * 10 + d
        } else {
            cap()
        }) == (if x * 10 + d < cap() { x * 10 + d } else { cap() }),
{
}

proof fn lemma_decimal_nonneg(s: Seq<char>)
    requires
        all_digits(s),
    ensures
        decimal_value(s) >= 0,
    decreases s.len(),
{
    if s.len() > 0 {
        assert(all_digits(s.drop_last())) by {
            assert forall|k: int| 0 <= k < s.drop_last().len() implies is_digit(
                #[trigger] s.drop_last()[k],
            ) by {
                assert(s.drop_last()[k] == s[k]);
            }
        }
        lemma_decimal_nonneg(s.drop_last());
        assert(is_digit(s[s.len() - 1]));
    }
}

/// Reads `s` as `str::parse::<i32>` does.
pub fn parse_int(s: &str) -> (r: Option<i32>)
    ensures
        r == parse_i32(s@),
{
    let cs = strings::chars_of(s);
    let n = cs.len();
    let neg = n > 0 && cs[0] == '-';
    let start: usize = if n > 0 && (cs[0] == '-' || cs[0] == '+') {
        1
    } else {
        0
    };
    let ghost body = s@.subrange(start as int, s@.len() as int);
    assert(body =~= if s@.len() > 0 && (s@[0] == '-' || s@[0] == '+') {
        s@.drop_first()
    } else {
        s@
    });
    if start >= n {
        return None;
    }
    let mut v: u64 = 0;
    let mut k: usize = start;
    while k < n
        invariant
            start <= k <= n,
            n == cs@.len(),
            cs@ == s@,
            body == s@.subrange(start as int, n as int),
            body == if s@.len() > 0 && (s@[0] == '-' || s@[0] == '+') {
                s@.drop_first()
            } else {
                s@
            },
            all_digits(s@.subrange(start as int, k as int)),
            v == if decimal_value(s@.subrange(start as int, k as int)) < cap() {
                decimal_value(s@.subrange(start as int, k as int))
            } else {
                cap()
            },
        decreases n - k,
    {
        let c = cs[k];
        if !(('0' as u32) <= (c as u32) && (c as u32) <= ('9' as u32)) {
            proof {
                assert(body[k - start] == c);
                assert(!all_digits(body));
            }
            return None;
        }
        let d = (c as u32 - '0' as u32) as u64;
        let ghost pre = s@.subrange(start as int, k as int);
        let ghost next = s@.subrange(start as int, k + 1);
        proof {
            assert(next.drop_last() =~= pre);
            assert(next.last() == c);
            lemma_decimal_nonneg(pre);
            lemma_capped_step(decimal_value(pre), d as int);
            assert forall|j: int| 0 <= j < next.len() implies is_digit(#[trigger] next[j]) by {
                if j < pre.len() {
                    assert(next[j] == pre[j]);
                }
            }
        }
        let w = v * 10 + d;
        v = if w < 0x8000_0001 {
            w
        } else {
            0x8000_0001
        };
        k = k + 1;
    }
    assert(s@.subrange(start as int, n as int) == body);
    proof {
        lemma_decimal_nonneg(body);
    }
    if neg {
        if v <= 0x8000_0000 {
            Some((0 - (v as i64)) as i32)
        } else {
            None
        }
    } else {
        if v <= 0x7fff_ffff {
            Some(v as i32)
        } else {
            None
        }
    }
}


/// The gana and the number of the dhatu code `code` (`01.0001`): the parts before and after its
/// first `.`; `None` where it has none.
pub open spec fn code_parts(code: Seq<char>) -> Option<(Seq<char>, Seq<char>)> {
    let k = crate::sounds::index_from(code, '.', 0);
    if k >= code.len() {
        None
    } else {
        Some((code.subrange(0, k), code.subrange(k + 1, code.len() as int)))
    }
}

/// Whether `t` is the dhatu `d` as it enters the derivation, with the gana `g` and the number `n`.
pub open spec fn fresh_dhatu(t: Term, d: Seq<char>, g: i32, n: i32) -> bool {
    &&& t.u_is(d)
    &&& t.text@ == d
    &&& t.tags@ == Set::<T>::empty()
    &&& t.gana == Some(g)
    &&& t.number == Some(n)
    &&& t.lakshana@.len() == 0
}

/// Whether the steps of `b` are those of `a` and, where steps are recorded, more, the first for
/// `rule`.
pub open spec fn steps_from(a: Prakriya, b: Prakriya, rule: Seq<char>) -> bool {
    &&& a.steps().len() <= b.steps().len()
    &&& b.steps().subrange(0, a.steps().len() as int) == a.steps()
    &&& (a.cfg().log_steps ==> a.steps().len() < b.steps().len() && b.steps()[a.steps().len() as int].rule@
        == rule)
}

/// Whether `b` is `a` after the dhatu `d` with the code `code` entered it: where the code has a
/// gana and a number, both read as `i32`, the dhatu is pushed and a step recorded ("start");
/// where either does not read, the result `ok` is false and nothing changes; where the code has
/// no `.`, nothing changes.
pub open spec fn init_stage(a: Prakriya, b: Prakriya, d: Seq<char>, code: Seq<char>, ok: bool) -> bool {
    match code_parts(code) {
        None => ok && b == a,
        Some(x) => if parse_i32(x.0) is Some && parse_i32(x.1) is Some {
            &&& ok
            &&& b.terms_seq() == a.terms_seq().push(b.terms_seq().last())
            &&& fresh_dhatu(b.terms_seq().last(), d, parse_i32(x.0)->0, parse_i32(x.1)->0)
            &&& Prakriya::rewrote(a, b)
            &&& steps_from(a, b, "start"@)
        } else {
            !ok && b == a
        },
    }
}

fn find_dot(s: &str) -> (r: usize)
    ensures
        r == crate::sounds::index_from(s@, '.', 0),
        r <= s@.len(),
{
    let cs = strings::chars_of(s);
    let mut k: usize = 0;
    while k < cs.len()
        invariant
            k <= cs@.len(),
            cs@ == s@,
            crate::sounds::index_from(s@, '.', 0) == crate::sounds::index_from(s@, '.', k as int),
        decreases cs@.len() - k,
    {
        if cs[k] == '.' {
            return k;
        }
        k = k + 1;
    }
    k
}

fn init(p: &mut Prakriya, dhatu: &str, code: &str) -> (r: Result<(), PrakriyaError>)
    ensures
        init_stage(*old(p), *final(p), dhatu@, code@, r is Ok),
{
    let n = code.unicode_len();
    let k = find_dot(code);
    if k >= n {
        return Ok(());
    }
    let gana = strings::substring(code, 0, k);
    let number = strings::substring(code, k + 1, n);
    let g = match parse_int(gana.as_str()) {
        Some(g) => g,
        None => return Err(PrakriyaError::new("the gana of the dhatu code is not a number")),
    };
    let num = match parse_int(number.as_str()) {
        Some(x) => x,
        None => return Err(PrakriyaError::new("the number of the dhatu code is not a number")),
    };
    let ghost p0 = *p;
    // The root enters the prakriyA
    p.push(Term::make_dhatu(dhatu, g, num));
    let ghost p1 = *p;
    p.step("start");
    proof {
        lemma_rewrote_refl(p0);
        assert(p1.steps().subrange(0, p1.steps().len() as int) =~= p1.steps());
        lemma_rewrote_trans(p0, p1, *p);
        assert(p.steps().subrange(0, p0.steps().len() as int) =~= p0.steps());
    }
    Ok(())
}

/// The dhatus that 1.1.20 terms ghu.
pub open spec fn ghu_texts() -> Seq<&'static str> {
    seq!["dA", "de", "do", "DA", "De"]
}

/// Whether 1.1.20 (dADA GvadAp) terms the dhatu `t` ghu: its text is one of `ghu_texts`, and
/// it is not `dA\p`.
pub open spec fn is_ghu(t: Term) -> bool {
    seq_has_str(ghu_texts(), t.text@) && !t.u_is("dA\\p"@)
}

/// Whether `b` is `a` after 1.3.1 terms its first term dhatu, the it-samjna rules run on it, and
/// 1.1.20 terms it ghu where they ran to the end; `ok` says whether they did.
pub open spec fn samjna_stage(a: Prakriya, b: Prakriya, ok: bool) -> bool {
    &&& Prakriya::rewrote(a, b)
    &&& steps_from(a, b, "1.3.1"@)
    &&& if a.terms_seq().len() == 0 {
        ok && b.terms_seq() == a.terms_seq()
    } else {
        let t = a.terms_seq()[0];
        let tags = t.tags@.insert(T::Dhatu);
        let res = if t.u is Some {
            it_samjna_outcome(t.u->0@, t.text@, tags)
        } else {
            (t.text@, tags, true)
        };
        &&& (ok <==> res.2)
        &&& b.terms_seq() == a.terms_seq().update(0, b.terms_seq()[0])
        &&& b.terms_seq()[0].text@ == res.0
        &&& crate::operations::same_but_text_and_tags(t, b.terms_seq()[0])
        &&& b.terms_seq()[0].tags@ == if ok && seq_has_str(ghu_texts(), res.0) && !t.u_is("dA\\p"@) {
            res.1.insert(T::Ghu)
        } else {
            res.1
        }
    }
}

fn add_samjnas(p: &mut Prakriya) -> (r: Result<(), PrakriyaError>)
    ensures
        samjna_stage(*old(p), *final(p), r is Ok),
{
    let ghost p0 = *p;
    proof {
        lemma_rewrote_refl(p0);
    }
    if p.terms().len() > 0 {
        if let Some(t) = p.get_mut(0) {
            t.add_tag(T::Dhatu);
        }
    }
    let ghost p1 = *p;
    p.step("1.3.1");
    let ghost p2 = *p;
    proof {
        assert(p1.steps().subrange(0, p1.steps().len() as int) =~= p1.steps());
        lemma_rewrote_trans(p0, p1, p2);
    }
    let r = it_samjna::run(p, 0);
    let ghost p3 = *p;
    proof {
        lemma_rewrote_trans(p0, p2, p3);
        if p0.terms_seq().len() > 0 {
            assert(p2.terms_seq() =~= p0.terms_seq().update(0, p2.terms_seq()[0]));
            assert(p3.terms_seq() =~= p0.terms_seq().update(0, p3.terms_seq()[0]));
        }
    }
    if r.is_err() {
        proof {
            assert(p.steps().subrange(0, p0.steps().len() as int) =~= p.steps().subrange(
                0,
                p2.steps().len() as int,
            ).subrange(0, p0.steps().len() as int));
        }
        return r;
    }
    let ghu = ["dA", "de", "do", "DA", "De"];
    assert(ghu@ =~= ghu_texts());
    let apply = p.terms().len() > 0 && p.terms()[0].has_text_in(&ghu) && !p.terms()[0].has_u("dA\\p");
    if apply {
        if let Some(t) = p.get_mut(0) {
            t.add_tag(T::Ghu);
        }
        let ghost p4 = *p;
        p.step("1.1.20");
        proof {
            assert(p4.steps().subrange(0, p4.steps().len() as int) =~= p4.steps());
            lemma_rewrote_trans(p0, p3, p4);
            lemma_rewrote_trans(p0, p4, *p);
        }
    }
    proof {
        if p0.cfg().log_steps {
            assert(p.steps()[p0.steps().len() as int] == p.steps().subrange(
                0,
                p2.steps().len() as int,
            )[p0.steps().len() as int]);
        }
        assert(Prakriya::rewrote(p0, *p));
        assert(steps_from(p0, *p, "1.3.1"@));
        if p0.terms_seq().len() > 0 {
            assert(p.terms_seq() =~= p0.terms_seq().update(0, p.terms_seq()[0]));
        }
    }
    r
}



/// Whether `b` is `a` after the rules of the tenth gana on its first term, `a`'s number
/// `num`: the dhatus of `cur_mit` are mit; those of `kusmadi` (numbers 192 to 236) and of
/// `garvadi` (440 to 449) make the derivation atmanepada.
pub open spec fn gana_stage(
    a: Prakriya,
    b: Prakriya,
    cur_mit: Seq<&str>,
    kusmadi: Seq<&str>,
    garvadi: Seq<&str>,
) -> bool {
    let t = a.terms_seq()[0];
    if t.gana == Some(10i32) && t.number is Some {
        let num = t.number->0;
        let mit = u_in(t, cur_mit);
        let atmane = (u_in(t, kusmadi) && 192 <= num <= 236) || (u_in(t, garvadi) && 440 <= num
            <= 449);
        &&& b.cfg() == a.cfg()
        &&& b.decisions() == a.decisions()
        &&& a.steps().len() <= b.steps().len()
        &&& b.steps().subrange(0, a.steps().len() as int) == a.steps()
        &&& (mit ==> b.terms_seq() == a.terms_seq().update(0, b.terms_seq()[0]) && with_tag(
            t,
            b.terms_seq()[0],
            T::mit,
        ))
        &&& (!mit ==> b.terms_seq() == a.terms_seq())
        &&& b.tag_set() == if atmane {
            a.tag_set().insert(T::Atmanepada)
        } else {
            a.tag_set()
        }
    } else {
        b == a
    }
}

fn gana_sutras(p: &mut Prakriya, cur_mit: &[&str], kusmadi: &[&str], garvadi: &[&str])
    requires
        old(p).terms_seq().len() > 0,
    ensures
        gana_stage(*old(p), *final(p), cur_mit@, kusmadi@, garvadi@),
{
    let ghost p0 = *p;
    let d = &p.terms()[0];
    let num = match (d.gana, d.number) {
        (Some(10), Some(num)) => num,
        _ => return,
    };
    let mit = d.has_u_in(cur_mit);
    // Need to check the range explicitly because some of these roots appear multiple times in
    // the gana, e.g. lakza~
    let kus = d.has_u_in(kusmadi) && 192 <= num && num <= 236;
    let garv = d.has_u_in(garvadi) && 440 <= num && num <= 449;
    if mit {
        if let Some(t) = p.get_mut(0) {
            t.add_tag(T::mit);
        }
        p.step("cur-mit");
    }
    if kus {
        p.add_tag(T::Atmanepada);
        p.step("kusmadi");
    }
    if garv {
        p.add_tag(T::Atmanepada);
        p.step("garvadi");
    }
    proof {
        assert(p.steps().subrange(0, p0.steps().len() as int) =~= p0.steps());
        if kus && garv {
            assert(p.tag_set() =~= p0.tag_set().insert(T::Atmanepada));
        }
    }
}

/// `x` with each `a` `b` in it, from the left, replaced by `c` `d`, as `str::replace` does.
pub open spec fn replace_pair(x: Seq<char>, a: char, b: char, c: char, d: char) -> Seq<char>
    decreases x.len(),
{
    if x.len() < 2 {
        x
    } else if x[0] == a && x[1] == b {
        seq![c, d] + replace_pair(x.subrange(2, x.len() as int), a, b, c, d)
    } else {
        seq![x[0]] + replace_pair(x.drop_first(), a, b, c, d)
    }
}

fn replace_pair_text(s: &str, a: char, b: char, c: char, d: char) -> (r: String)
    ensures
        r@ == replace_pair(s@, a, b, c, d),
{
    let cs = strings::chars_of(s);
    let n = cs.len();
    let mut out: Vec<char> = Vec::new();
    let mut k: usize = 0;
    assert(s@.subrange(0, n as int) =~= s@);
    assert(out@ + replace_pair(s@, a, b, c, d) =~= replace_pair(s@, a, b, c, d));
    while k < n
        invariant
            k <= n,
            n == cs@.len(),
            cs@ == s@,
            out@ + replace_pair(s@.subrange(k as int, n as int), a, b, c, d) == replace_pair(s@, a, b, c, d),
        decreases n - k,
    {
        let ghost rest = s@.subrange(k as int, n as int);
        if k + 1 < n && cs[k] == a && cs[k + 1] == b {
            assert(rest.subrange(2, rest.len() as int) =~= s@.subrange(k + 2, n as int));
            out.push(c);
            out.push(d);
            assert(out@ + replace_pair(s@.subrange(k + 2, n as int), a, b, c, d) =~= out@.drop_last().drop_last() + (seq![c, d] + replace_pair(s@.subrange(k + 2, n as int), a, b, c, d)));
            k = k + 2;
        } else {
            if k + 1 < n {
                assert(rest.drop_first() =~= s@.subrange(k + 1, n as int));
            } else {
                assert(rest =~= seq![cs@[k as int]]);
                assert(s@.subrange(k + 1, n as int) =~= Seq::<char>::empty());
            }
            let x = cs[k];
            out.push(x);
            assert(out@ + replace_pair(s@.subrange(k + 1, n as int), a, b, c, d) =~= out@.drop_last() + (seq![x] + replace_pair(s@.subrange(k + 1, n as int), a, b, c, d)));
            k = k + 1;
        }
    }
    assert(s@.subrange(n as int, n as int) =~= Seq::<char>::empty());
    assert(out@ + Seq::<char>::empty() =~= out@);
    strings::string_from_chars(&out)
}

/// The text that 6.1.64 (DAtvAdeH zaH saH) and its varttikas give a dhatu `x` that starts with
/// `z`, the rule, and whether the term is flagged as changed at its start: `zWiv` and `zvazk`
/// keep their `z` (6.1.64.v1, unflagged); `zw`, `zW` and `zR` become `st`, `sT` and `sn`
/// throughout (6.1.64.v2); else the `z` becomes `s`.
pub open spec fn satva(x: Seq<char>) -> (Seq<char>, Seq<char>, bool) {
    if x == "zWiv"@ || x == "zvazk"@ {
        ("6.1.64.v1"@, x, false)
    } else if x.len() >= 2 && x[0] == 'z' && (x[1] == 'w' || x[1] == 'W' || x[1] == 'R') {
        (
            "6.1.64.v2"@,
            replace_pair(
                replace_pair(replace_pair(x, 'z', 'w', 's', 't'), 'z', 'W', 's', 'T'),
                'z',
                'R',
                's',
                'n',
            ),
            true,
        )
    } else {
        ("6.1.64"@, replace_adi(x, "s"@), true)
    }
}

/// Whether `b` is `a` after 6.1.64 (for a first term that starts with `z`) or 6.1.65 (for one that
/// starts with `R`, which becomes `n`): the text changes as `satva` says, and the term is flagged
/// as changed at its start where `satva` says so.
pub open spec fn satva_natva_stage(a: Prakriya, b: Prakriya) -> bool {
    let t = a.terms_seq()[0];
    let x = t.text@;
    if x.len() > 0 && (x[0] == 'z' || x[0] == 'R') {
        let (rule, y, flag) = if x[0] == 'z' {
            satva(x)
        } else {
            ("6.1.65"@, replace_adi(x, "n"@), true)
        };
        &&& Prakriya::rewrote(a, b)
        &&& steps_from(a, b, rule)
        &&& b.terms_seq() == a.terms_seq().update(0, b.terms_seq()[0])
        &&& b.terms_seq()[0].text@ == y
        &&& crate::operations::same_but_text_and_tags(t, b.terms_seq()[0])
        &&& b.terms_seq()[0].tags@ == if flag {
            t.tags@.insert(T::FlagAdeshadi)
        } else {
            t.tags@
        }
    } else {
        b == a
    }
}

fn set_first(p: &mut Prakriya, rule: crate::prakriya::Rule, text: &str, flag: bool)
    requires
        old(p).terms_seq().len() > 0,
    ensures
        Prakriya::rewrote(*old(p), *final(p)),
        steps_from(*old(p), *final(p), rule@),
        final(p).terms_seq() == old(p).terms_seq().update(0, final(p).terms_seq()[0]),
        final(p).terms_seq()[0].text@ == text@,
        crate::operations::same_but_text_and_tags(old(p).terms_seq()[0], final(p).terms_seq()[0]),
        final(p).terms_seq()[0].tags@ == if flag {
            old(p).terms_seq()[0].tags@.insert(T::FlagAdeshadi)
        } else {
            old(p).terms_seq()[0].tags@
        },
{
    let ghost p0 = *p;
    if let Some(t) = p.get_mut(0) {
        t.text = strings::string_from(text);
        if flag {
            t.add_tag(T::FlagAdeshadi);
        }
    }
    let ghost p1 = *p;
    p.step(rule);
    proof {
        lemma_rewrote_refl(p0);
        assert(p1.steps().subrange(0, p1.steps().len() as int) =~= p1.steps());
        lemma_rewrote_trans(p0, p1, *p);
        assert(p.steps().subrange(0, p0.steps().len() as int) =~= p0.steps());
    }
}

fn satva_and_natva(p: &mut Prakriya)
    requires
        old(p).terms_seq().len() > 0,
    ensures
        satva_natva_stage(*old(p), *final(p)),
{
    let t = &p.terms()[0];
    let x = t.text.as_str();
    let n = x.unicode_len();
    if n == 0 {
        return;
    }
    let c0 = x.get_char(0);
    if c0 == 'z' {
        // Varttika -- no change for zWiv or zvazk
        if t.has_text("zWiv") || t.has_text("zvazk") {
            let text = strings::string_from(x);
            set_first(p, "6.1.64.v1", text.as_str(), false);
        } else if n >= 2 && (x.get_char(1) == 'w' || x.get_char(1) == 'W' || x.get_char(1) == 'R') {
            // Varttika -- also change next sound
            let y1 = replace_pair_text(x, 'z', 'w', 's', 't');
            let y2 = replace_pair_text(y1.as_str(), 'z', 'W', 's', 'T');
            let y3 = replace_pair_text(y2.as_str(), 'z', 'R', 's', 'n');
            set_first(p, "6.1.64.v2", y3.as_str(), true);
        } else {
            let y = crate::operations::splice(x, 0, 1, "s");
            assert(y@ =~= replace_adi(x@, "s"@));
            set_first(p, "6.1.64", y.as_str(), true);
        }
    } else if c0 == 'R' {
        let y = crate::operations::splice(x, 0, 1, "n");
        assert(y@ =~= replace_adi(x@, "n"@));
        set_first(p, "6.1.65", y.as_str(), true);
    }
}



/// Whether `b` is `a` after 7.1.58 (idito num DAtoH) on its first term: an idit dhatu, but for
/// `cakz`, takes `n` after its last vowel.
pub open spec fn num_stage(a: Prakriya, b: Prakriya) -> bool {
    let t = a.terms_seq()[0];
    if t.tagged(T::idit) && !t.u_is("ca\\kzi~\\N"@) {
        crate::operators::term_rule_applied(a, b, "7.1.58", 0, insert_after_last_vowel(t.text@, "n"@))
    } else {
        b == a
    }
}

fn maybe_add_num_agama(p: &mut Prakriya)
    requires
        old(p).terms_seq().len() > 0,
    ensures
        num_stage(*old(p), *final(p)),
{
    let t = &p.terms()[0];
    if t.has_tag(T::idit) && !t.has_u("ca\\kzi~\\N") {
        crate::operators::term_mit(p, "7.1.58", 0, "n");
    }
}

/// Whether `t` is the upasarga `aDi` that 1.4.80 puts before `i` and `ik`.
pub open spec fn adhi_upasarga(t: Term) -> bool {
    &&& t.u_is("aDi"@)
    &&& t.text@ == "aDi"@
    &&& t.tags@ == set![T::Upasarga]
    &&& t.gana is None
    &&& t.number is None
    &&& t.lakshana@.len() == 0
}

/// Whether `b` is `a` after 1.4.80: the dhatus `i\N` and `i\k`, which are always used with
/// `aDi`, get it before the first term.
pub open spec fn upasarga_stage(a: Prakriya, b: Prakriya) -> bool {
    if u_in(a.terms_seq()[0], seq!["i\\N", "i\\k"]) {
        &&& b.terms_seq() == a.terms_seq().insert(0, b.terms_seq()[0])
        &&& adhi_upasarga(b.terms_seq()[0])
        &&& Prakriya::rewrote(a, b)
        &&& steps_from(a, b, "1.4.80"@)
    } else {
        b == a
    }
}

fn maybe_add_upasarga(p: &mut Prakriya)
    requires
        old(p).terms_seq().len() > 0,
    ensures
        upasarga_stage(*old(p), *final(p)),
{
    let ghost p0 = *p;
    let ik = ["i\\N", "i\\k"];
    assert(ik@ =~= seq!["i\\N", "i\\k"]);
    // These two roots are always used with the upasarga `adhi-`:
    if p.terms()[0].has_u_in(&ik) {
        let mut upa = Term::make_upadesha("aDi");
        upa.add_tag(T::Upasarga);
        assert(upa.tags@ =~= set![T::Upasarga]);
        p.insert_before(0, upa);
        let ghost p1 = *p;
        p.step("1.4.80");
        proof {
            lemma_rewrote_refl(p0);
            assert(p1.steps().subrange(0, p1.steps().len() as int) =~= p1.steps());
            lemma_rewrote_trans(p0, p1, *p);
            assert(p.steps().subrange(0, p0.steps().len() as int) =~= p0.steps());
        }
    }
}

/// Whether the it-samjna rules run to the end on the first term of `a`, after 1.3.1 terms it
/// dhatu.
pub open spec fn samjna_ok(a: Prakriya) -> bool {
    a.terms_seq().len() == 0 || a.terms_seq()[0].u is None || it_samjna_outcome(
        a.terms_seq()[0].u->0@,
        a.terms_seq()[0].text@,
        a.terms_seq()[0].tags@.insert(T::Dhatu),
    ).2
}

/// Whether the dhatu code `code` reads, where it has a `.`.
pub open spec fn code_ok(code: Seq<char>) -> bool {
    match code_parts(code) {
        None => true,
        Some(x) => parse_i32(x.0) is Some && parse_i32(x.1) is Some,
    }
}

/// Whether `b` is `a` after the dhatu `d` with the code `code` entered it and the first rules
/// ran on it, by way of the states `a1` to `a5`: `init_stage`, `samjna_stage`, `gana_stage`,
/// `satva_natva_stage`, `num_stage` and `upasarga_stage`, in turn; where the code does not read
/// or the it-samjna rules cannot run to the end, the result `ok` is false and the derivation
/// stops there.
pub open spec fn dhatu_karya_chain(
    a: Prakriya,
    a1: Prakriya,
    a2: Prakriya,
    a3: Prakriya,
    a4: Prakriya,
    a5: Prakriya,
    b: Prakriya,
    d: Seq<char>,
    code: Seq<char>,
    cur_mit: Seq<&str>,
    kusmadi: Seq<&str>,
    garvadi: Seq<&str>,
    ok: bool,
) -> bool {
    &&& init_stage(a, a1, d, code, code_ok(code))
    &&& if !code_ok(code) {
        !ok && b == a1
    } else {
        &&& samjna_stage(a1, a2, samjna_ok(a1))
        &&& if !samjna_ok(a1) {
            !ok && b == a2
        } else {
            &&& ok
            &&& gana_stage(a2, a3, cur_mit, kusmadi, garvadi)
            &&& satva_natva_stage(a3, a4)
            &&& num_stage(a4, a5)
            &&& upasarga_stage(a5, b)
        }
    }
}

/// Starts a derivation with the dhatu `d`, whose code `code` (`01.0001`) gives its gana and its
/// number, and runs the rules that apply to it at once (`dhatu_karya_chain`). `cur_mit`,
/// `kusmadi` and `garvadi` are the lists of the tenth gana that the rules on it read. Returns an
/// error where the code does not read or the it-samjna rules cannot run to the end.
pub fn run(
    p: &mut Prakriya,
    d: &str,
    code: &str,
    cur_mit: &[&str],
    kusmadi: &[&str],
    garvadi: &[&str],
) -> (r: Result<(), PrakriyaError>)
    requires
        old(p).terms_seq().len() > 0 || code_parts(code@) is Some,
    ensures
        exists|a1: Prakriya, a2: Prakriya, a3: Prakriya, a4: Prakriya, a5: Prakriya|
            #[trigger] dhatu_karya_chain(
                *old(p),
                a1,
                a2,
                a3,
                a4,
                a5,
                *final(p),
                d@,
                code@,
                cur_mit@,
                kusmadi@,
                garvadi@,
                r is Ok,
            ),
{
    let ghost p0 = *p;
    let r = init(p, d, code);
    let ghost a1 = *p;
    if r.is_err() {
        assert(dhatu_karya_chain(p0, a1, a1, a1, a1, a1, *p, d@, code@, cur_mit@, kusmadi@, garvadi@, r is Ok));
        return r;
    }
    let r = add_samjnas(p);
    let ghost a2 = *p;
    if r.is_err() {
        assert(dhatu_karya_chain(p0, a1, a2, a2, a2, a2, *p, d@, code@, cur_mit@, kusmadi@, garvadi@, r is Ok));
        return r;
    }
    gana_sutras(p, cur_mit, kusmadi, garvadi);
    let ghost a3 = *p;
    satva_and_natva(p);
    let ghost a4 = *p;
    maybe_add_num_agama(p);
    let ghost a5 = *p;
    maybe_add_upasarga(p);
    let r: Result<(), PrakriyaError> = Ok(());
    assert(dhatu_karya_chain(
        p0,
        a1,
        a2,
        a3,
        a4,
        a5,
        *p,
        d@,
        code@,
        cur_mit@,
        kusmadi@,
        garvadi@,
        r is Ok,
    ));
    r
}


} // verus!
