use vidyut_prakriya::angasya::{maybe_rule, try_guna_adesha, try_nnit_vrddhi, try_sic_vrddhi, try_vrddhi_adesha};
use vidyut_prakriya::constants::Tag;
use vidyut_prakriya::prakriya::{Config, Prakriya, RuleChoice};
use vidyut_prakriya::term::Term;

fn term(u: &str, text: &str, tags: &[Tag]) -> Term {
    let mut t = Term::make_upadesha(u);
    t.text = text.to_string();
    for tag in tags {
        t.add_tag(*tag);
    }
    t
}

fn dhatu(u: &str, text: &str) -> Term {
    term(u, text, &[Tag::Dhatu])
}

fn with_choices(choices: Vec<RuleChoice>, terms: Vec<Term>) -> Prakriya {
    let mut p = Prakriya::with_config(Config {
        rule_choices: choices,
        log_steps: true,
    });
    for t in terms {
        p.push(t);
    }
    p
}

fn of(terms: Vec<Term>) -> Prakriya {
    with_choices(vec![], terms)
}

fn texts(p: &Prakriya) -> Vec<String> {
    p.terms().iter().map(|t| t.text.clone()).collect()
}

fn sap() -> Term {
    term("Sap", "a", &[Tag::Pratyaya, Tag::Sarvadhatuka, Tag::pit])
}

#[test]
fn penultimate_short_vowel_takes_guna() {
    let mut p = of(vec![dhatu("buDa~", "buD"), sap()]);
    assert_eq!(try_guna_adesha(&mut p, 0), Some(()));
    assert_eq!(texts(&p), vec!["boD", "a"]);
    assert!(p.terms()[0].has_tag(Tag::FlagGuna));
}

#[test]
fn final_ik_takes_guna() {
    let mut p = of(vec![dhatu("ci\\Y", "ci"), term("tAsi~", "tA", &[Tag::Pratyaya, Tag::Ardhadhatuka])]);
    assert_eq!(try_guna_adesha(&mut p, 0), Some(()));
    assert_eq!(texts(&p), vec!["ce", "tA"]);
}

#[test]
fn guna_special_cases() {
    let mut p = of(vec![dhatu("guhU~^", "guh"), sap()]);
    try_guna_adesha(&mut p, 0);
    assert_eq!(texts(&p), vec!["gUh", "a"]);

    let mut p = of(vec![dhatu("YimidA~", "mid"), term("Syan", "ya", &[Tag::Pratyaya, Tag::Sit])]);
    try_guna_adesha(&mut p, 0);
    assert_eq!(texts(&p), vec!["med", "ya"]);
}

#[test]
fn no_guna_before_kit() {
    let mut p = of(vec![
        dhatu("ci\\Y", "ci"),
        term("kta", "ta", &[Tag::Pratyaya, Tag::Ardhadhatuka, Tag::kit]),
    ]);
    assert_eq!(try_guna_adesha(&mut p, 0), Some(()));
    assert_eq!(texts(&p), vec!["ci", "ta"]);
}

#[test]
fn bhu_before_a_pit_tin_is_declined() {
    let mut p = of(vec![
        dhatu("BU", "BU"),
        term("tip", "t", &[Tag::Pratyaya, Tag::Sarvadhatuka, Tag::pit, Tag::Tin]),
    ]);
    assert_eq!(try_guna_adesha(&mut p, 0), None);
    assert_eq!(texts(&p), vec!["BU", "t"]);
}

#[test]
fn no_guna_without_a_next_term_or_for_an_agama() {
    let mut p = of(vec![dhatu("ci\\Y", "ci")]);
    assert_eq!(try_guna_adesha(&mut p, 0), None);
    let mut p = of(vec![Term::make_agama("iw"), sap()]);
    assert_eq!(try_guna_adesha(&mut p, 0), None);
}

#[test]
fn final_vowel_takes_vrddhi_before_nit() {
    let mut p = of(vec![dhatu("qukf\\Y", "kf"), term("Ric", "i", &[Tag::Pratyaya, Tag::Rit])]);
    assert_eq!(try_vrddhi_adesha(&mut p, 0), Some(()));
    assert_eq!(texts(&p), vec!["kAr", "i"]);
}

#[test]
fn mfj_takes_vrddhi() {
    let mut p = of(vec![dhatu("mfjU~", "mfj"), term("tfc", "tf", &[Tag::Pratyaya])]);
    try_vrddhi_adesha(&mut p, 0);
    assert_eq!(texts(&p), vec!["mArj", "tf"]);
}

#[test]
fn penultimate_a_takes_vrddhi_before_yit() {
    let mut p = of(vec![dhatu("qupa\\ca~^z", "pac"), term("GaY", "a", &[Tag::Pratyaya, Tag::Yit])]);
    assert_eq!(try_nnit_vrddhi(&mut p, 0), Some(()));
    assert_eq!(texts(&p), vec!["pAc", "a"]);
}

#[test]
fn jan_is_not_lengthened_before_cin() {
    let mut p = of(vec![dhatu("janI~\\", "jan"), term("ciR", "i", &[Tag::Pratyaya, Tag::Rit])]);
    assert_eq!(try_nnit_vrddhi(&mut p, 0), Some(()));
    assert_eq!(texts(&p), vec!["jan", "i"]);
}

#[test]
fn no_vrddhi_before_a_plain_pratyaya() {
    let mut p = of(vec![dhatu("qupa\\ca~^z", "pac"), sap()]);
    assert_eq!(try_nnit_vrddhi(&mut p, 0), None);
    assert_eq!(texts(&p), vec!["pac", "a"]);

    let mut d = dhatu("qupa\\ca~^z", "pac");
    d.add_tag(Tag::FlagGunaApavada);
    let mut p = of(vec![d, term("GaY", "a", &[Tag::Pratyaya, Tag::Yit])]);
    assert_eq!(try_vrddhi_adesha(&mut p, 0), None);
}

fn sic() -> Term {
    term("si~c", "s", &[Tag::Pratyaya])
}

fn tip() -> Term {
    term("tip", "t", &[Tag::Pratyaya, Tag::Parasmaipada])
}

#[test]
fn sic_vrddhi_of_a_final_vowel() {
    let mut p = of(vec![dhatu("ci\\Y", "ci"), sic(), tip()]);
    assert_eq!(try_sic_vrddhi(&mut p), Some(()));
    assert_eq!(texts(&p), vec!["cE", "s", "t"]);
}

#[test]
fn sic_vrddhi_after_iw() {
    let mut it = Term::make_agama("iw");
    it.text = "i".to_string();
    let mut p = of(vec![dhatu("lUY", "lU"), it, sic(), tip()]);
    assert_eq!(try_sic_vrddhi(&mut p), Some(()));
    assert_eq!(texts(&p), vec!["lO", "i", "s", "t"]);
}

#[test]
fn sic_vrddhi_blocked_for_a_final_consonant_before_iw() {
    let mut it = Term::make_agama("iw");
    it.text = "i".to_string();
    let mut p = of(vec![dhatu("kupa~", "kup"), it.clone(), sic(), tip()]);
    assert_eq!(try_sic_vrddhi(&mut p), None);
    assert_eq!(texts(&p), vec!["kup", "i", "s", "t"]);
    assert_eq!(p.rule_choices().len(), 1);

    let mut p = with_choices(
        vec![RuleChoice::Decline("7.2.4")],
        vec![dhatu("kupa~", "kup"), it, sic(), tip()],
    );
    assert_eq!(try_sic_vrddhi(&mut p), Some(()));
    assert_eq!(texts(&p), vec!["kOp", "i", "s", "t"]);
}

#[test]
fn sic_vrddhi_of_a_before_r_and_in_a_conjunct() {
    let mut p = of(vec![dhatu("cara~", "car"), sic(), tip()]);
    assert_eq!(try_sic_vrddhi(&mut p), Some(()));
    assert_eq!(texts(&p), vec!["cAr", "s", "t"]);

    let mut p = of(vec![dhatu("ra\\nja~^", "raYj"), sic(), tip()]);
    assert_eq!(try_sic_vrddhi(&mut p), Some(()));
    assert_eq!(texts(&p), vec!["rAYj", "s", "t"]);
}

#[test]
fn no_sic_vrddhi_without_sic_or_before_atmanepada() {
    let mut p = of(vec![dhatu("ci\\Y", "ci"), sap(), tip()]);
    assert_eq!(try_sic_vrddhi(&mut p), None);
    assert_eq!(texts(&p), vec!["ci", "a", "t"]);

    let mut p = of(vec![dhatu("ci\\Y", "ci"), sic(), term("ta", "ta", &[Tag::Pratyaya])]);
    assert_eq!(try_sic_vrddhi(&mut p), None);
}

#[test]
fn maybe_rule_follows_the_choices() {
    let mut p = with_choices(vec![RuleChoice::Decline("7.2.7")], vec![]);
    assert_eq!(maybe_rule(&mut p, "7.2.7"), None);
    assert_eq!(maybe_rule(&mut p, "7.2.4"), Some("7.2.4"));
    assert_eq!(p.rule_choices().len(), 2);
}
