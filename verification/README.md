vidyut_prakriya
===============

Rules of Paninian grammar that derive Sanskrit words step by step (prakriyās), written in
Verus: each rule is executable Rust with a contract in `requires` / `ensures`, and Verus proves
the code against it.

Layout
------

- `src/` is the library. `prakriya.rs` holds the derivation state (`Prakriya`, its terms, tags,
  settings and log) and `PrakriyaStack`, which explores the paths of optional rules.
  `term.rs`, `sounds.rs`, `operations.rs`, `operators.rs` and `filters.rs` give the terms,
  the sound sets of the Shiva sutras and the small operations and tests that rules are made of.
  The rule modules follow the Ashtadhyayi: `it_samjna`, `ardhadhatuka`, `vikarana`,
  `tin_pratyaya`, `angasya`, `abhyasasya`, `ac_sandhi`, `asiddhavat`, `tripadi` (8.2 to 8.4)
  and others.
- `char_view.rs` reads the terms of a derivation as one joined text. Its `char_rule` runs a
  rule on sounds pass after pass until it changes nothing; its contract says what the result is
  through the spec functions `first_change` and `settle`, so the sandhi functions built on it
  state their results exactly.
- The first steps of a derivation stand each in a module of their own: `dhatu_karya` (the
  dhatu enters with its code), `sanadi`, `la_karya`, `vikarana::run`, `it_agama` and `dvitva`.
  Where a rule reads a list of dhatus that the gana lists hold (such as the `puzAdi` of 3.1.55
  or the `raDAdi` of 7.2.45), the function takes the list as a parameter. Each of these
  functions states its result as a chain of stages over spec functions of the rules.
- `tests/` holds the tests; `app/` reads the Dhatupatha from disk, which the library leaves
  out.

What it does not hold
---------------------

The library holds the rule stages, not the driver that runs a whole derivation from a dhatu and
its arguments to the finished words (`derive_tinantas` and the stages that only it calls, such
as the asiddhavat stages, `angasya::run_remainder` and `atidesha`): the driver and those stages
rest on rules for atmanepada, samprasarana and the gana lists that this crate does not have.
The usage example of the driver therefore has no counterpart here; each stage is called and
tested on its own.

Where a stage states the steps it records, its contract says which rule each new step names
(for example `dhatu_adesha_before_vikarana` through `adesha_trace`). The functions built on
`char_rule` (the sandhi rules of 6.1 and of the tripadi) state their resulting texts exactly,
but not which rule each step of a sound rule names.

The calls into `regex` and `compact_str` stand behind a few trusted wrappers in
`it_samjna/pattern.rs`, `prakriya.rs` and `strings.rs`; every other function is verified.
