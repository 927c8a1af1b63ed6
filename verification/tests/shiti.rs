use vidyut_prakriya::angasya::try_shiti;
use vidyut_prakriya::constants::Tag;
use vidyut_prakriya::prakriya::{Config, Prakriya, RuleChoice};
use vidyut_prakriya::term::Term;

fn before_shit(u: &str, text: &str, gana: i32, n_u: &str, n_text: &str, choices: Vec<RuleChoice>) -> Prakriya {
    let mut c = Config::new();
    c.log_steps = true;
    c.rule_choices = choices;
    let mut p = Prakriya::with_config(c);
    let mut d = Term::make_dhatu(u, gana, 1);
    d.text = text.to_string();
    d.add_tag(Tag::Dhatu);
    let mut n = Term::make_upadesha(n_u);
    n.text = n_text.to_string();
    n.add_tags(&[Tag::Pratyaya, Tag::Sit]);
    p.push(d);
    p.push(n);
    p
}

#[test]
fn shiti_drops_final_o_before_syan() {
    let mut p = before_shit("So\\", "So", 4, "Syan", "ya", vec![]);
    try_shiti(&mut p, &[]);
    assert_eq!(p.terms()[0].text, "S");
    assert_eq!(p.history()[0].rule, "7.3.71");
}

#[test]
fn shiti_lengthens_sham_adi() {
    let mut p = before_shit("Samu~", "Sam", 4, "Syan", "ya", vec![]);
    try_shiti(&mut p, &[]);
    assert_eq!(p.terms()[0].text, "SAm");
}

#[test]
fn shiti_lengthens_klam_and_zwiv() {
    let mut p = before_shit("klamu~", "klam", 1, "Sap", "a", vec![]);
    try_shiti(&mut p, &[]);
    assert_eq!(p.terms()[0].text, "klAm");
    let mut p = before_shit("zWivu~", "zWiv", 1, "Sap", "a", vec![]);
    try_shiti(&mut p, &[]);
    assert_eq!(p.terms()[0].text, "zWIv");
}

#[test]
fn shiti_kram_before_parasmaipada() {
    let mut p = before_shit("kramu~", "kram", 1, "Sap", "a", vec![]);
    let mut tin = Term::make_upadesha("tip");
    tin.text = "ti".to_string();
    tin.add_tag(Tag::Parasmaipada);
    p.push(tin);
    try_shiti(&mut p, &[]);
    assert_eq!(p.terms()[0].text, "krAm");
}

#[test]
fn shiti_gam_takes_cha() {
    let mut p = before_shit("ga\\mx~", "gam", 1, "Sap", "a", vec![]);
    try_shiti(&mut p, &[]);
    assert_eq!(p.terms()[0].text, "gaC");
}

#[test]
fn shiti_pa_becomes_piba() {
    let mut p = before_shit("pA\\", "pA", 1, "Sap", "a", vec![]);
    try_shiti(&mut p, &[]);
    assert_eq!(p.terms()[0].text, "piba");
    assert_eq!(p.history()[0].rule, "7.3.78");
}

#[test]
fn shiti_pa_of_the_second_gana_stays() {
    let mut p = before_shit("pA\\", "pA", 2, "Sap", "a", vec![]);
    try_shiti(&mut p, &[]);
    assert_eq!(p.terms()[0].text, "pA");
}

#[test]
fn shiti_sr_is_optional() {
    let mut p = before_shit("sf\\", "sf", 1, "Sap", "a", vec![]);
    try_shiti(&mut p, &[]);
    assert_eq!(p.terms()[0].text, "DO");
    assert!(matches!(p.rule_choices()[0], RuleChoice::Accept("7.3.78")));

    let mut p = before_shit("sf\\", "sf", 1, "Sap", "a", vec![RuleChoice::Decline("7.3.78")]);
    try_shiti(&mut p, &[]);
    assert_eq!(p.terms()[0].text, "sf");
    assert!(matches!(p.rule_choices()[0], RuleChoice::Decline("7.3.78")));
}

#[test]
fn shiti_jna_becomes_ja() {
    let mut p = before_shit("jYA\\", "jYA", 9, "SnA", "nA", vec![]);
    try_shiti(&mut p, &[]);
    assert_eq!(p.terms()[0].text, "jA");
}

#[test]
fn shiti_shortens_pu_adi() {
    let mut p = before_shit("pUY", "pU", 9, "SnA", "nA", vec![]);
    try_shiti(&mut p, &["pUY"]);
    assert_eq!(p.terms()[0].text, "pu");
}

#[test]
fn shiti_needs_a_sit_pratyaya() {
    let mut p = before_shit("pA\\", "pA", 1, "Sap", "a", vec![]);
    p.terms_mut()[1].remove_tag(Tag::Sit);
    try_shiti(&mut p, &[]);
    assert_eq!(p.terms()[0].text, "pA");
}
