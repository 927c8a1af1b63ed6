use vidyut_prakriya::angasya::hacky_before_dvitva;
use vidyut_prakriya::constants::Tag;
use vidyut_prakriya::prakriya::{Config, Prakriya, RuleChoice};
use vidyut_prakriya::term::Term;

fn dhatu(text: &str, gana: i32) -> Term {
    let mut d = Term::make_dhatu(text, gana, 1);
    d.add_tag(Tag::Dhatu);
    d
}

fn suffix(u: &str, text: &str) -> Term {
    let mut t = Term::make_upadesha(u);
    t.text = text.to_string();
    t.add_tag(Tag::Pratyaya);
    t
}

#[test]
fn before_dvitva_f_upadha_becomes_ir() {
    let mut p = Prakriya::new();
    p.push(dhatu("kFt", 10));
    p.push(suffix("tip", "ti"));
    hacky_before_dvitva(&mut p);
    assert_eq!(p.terms()[0].text, "kirt");
}

#[test]
fn before_dvitva_ur_rt_before_ni_and_can() {
    let mut p = Prakriya::new();
    p.push(dhatu("kFt", 10));
    p.push(suffix("Ric", "i"));
    p.push(suffix("caN", "a"));
    hacky_before_dvitva(&mut p);
    assert_eq!(p.terms()[0].text, "kft");
    assert!(p.terms()[0].has_tag(Tag::FlagGunaApavada));
    assert!(matches!(p.rule_choices()[0], RuleChoice::Accept("7.4.7")));
}

#[test]
fn before_dvitva_declined_ur_rt_leaves_ir() {
    let mut c = Config::new();
    c.rule_choices.push(RuleChoice::Decline("7.4.7"));
    let mut p = Prakriya::with_config(c);
    p.push(dhatu("kFt", 10));
    p.push(suffix("Ric", "i"));
    p.push(suffix("caN", "a"));
    hacky_before_dvitva(&mut p);
    assert_eq!(p.terms()[0].text, "kirt");
}

#[test]
fn before_dvitva_shf_before_lit() {
    let mut p = Prakriya::new();
    p.push(dhatu("SF", 9));
    let mut tin = suffix("tip", "a");
    tin.lakshana.push("li~w".to_string());
    p.push(tin);
    hacky_before_dvitva(&mut p);
    assert_eq!(p.terms()[0].text, "Sf");
    assert!(p.terms()[0].has_tag(Tag::FlagGunaApavada));
}
