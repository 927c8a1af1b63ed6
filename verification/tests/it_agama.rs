use vidyut_prakriya::constants::Tag;
use vidyut_prakriya::it_agama::{is_hacky_eka_ac, run_before_attva};
use vidyut_prakriya::prakriya::{Config, Prakriya, RuleChoice};
use vidyut_prakriya::term::Term;

fn derivation(dhatu_u: &str, dhatu: &str, dhatu_tags: &[Tag], u: &str, text: &str, tags: &[Tag]) -> Prakriya {
    let mut c = Config::new();
    c.log_steps = true;
    let mut p = Prakriya::with_config(c);
    let mut d = Term::make_upadesha(dhatu_u);
    d.text = dhatu.to_string();
    d.add_tag(Tag::Dhatu);
    d.add_tags(dhatu_tags);
    let mut n = Term::make_upadesha(u);
    n.text = text.to_string();
    n.add_tag(Tag::Pratyaya);
    n.add_tags(tags);
    p.push(d);
    p.push(n);
    p
}

fn texts(p: &Prakriya) -> Vec<String> {
    p.terms().iter().map(|t| t.text.clone()).collect()
}

#[test]
fn it_before_a_val_ardhadhatuka() {
    let mut p = derivation("BU", "BU", &[], "tAsi~", "tAs", &[Tag::Ardhadhatuka]);
    run_before_attva(&mut p, &[], &[]);
    assert_eq!(texts(&p), vec!["BU", "i", "tAs"]);
    assert!(p.terms()[1].has_tag(Tag::Agama));
    assert_eq!(p.history()[0].rule, "7.2.35");
}

#[test]
fn anudatta_dhatu_of_one_vowel_is_anit() {
    let mut p = derivation("qukf\\Y", "kf", &[Tag::Anudatta], "tAsi~", "tAs", &[Tag::Ardhadhatuka]);
    run_before_attva(&mut p, &[], &[]);
    assert_eq!(texts(&p), vec!["kf", "tAs"]);
    assert_eq!(p.history()[0].rule, "7.2.10");
}

#[test]
fn it_before_sya_after_f() {
    let mut p = derivation("qukf\\Y", "kf", &[Tag::Anudatta], "sya", "sya", &[Tag::Ardhadhatuka]);
    run_before_attva(&mut p, &[], &[]);
    assert_eq!(texts(&p), vec!["kf", "i", "sya"]);
    assert_eq!(p.history()[0].rule, "7.2.70");
}

#[test]
fn optional_it_for_radh_adi() {
    let mut p = derivation("raDa~", "raD", &[Tag::Anudatta], "tAsi~", "tAs", &[Tag::Ardhadhatuka]);
    run_before_attva(&mut p, &["raDa~"], &[]);
    assert_eq!(texts(&p), vec!["raD", "i", "tAs"]);
    assert_eq!(p.rule_choices().len(), 1);
    assert!(matches!(p.rule_choices()[0], RuleChoice::Accept("7.2.45")));
}

#[test]
fn declined_radh_adi_falls_back_to_7_2_10() {
    let mut c = Config::new();
    c.log_steps = true;
    c.rule_choices.push(RuleChoice::Decline("7.2.45"));
    let mut p = Prakriya::with_config(c);
    let mut d = Term::make_upadesha("raDa~");
    d.text = "raD".to_string();
    d.add_tags(&[Tag::Dhatu, Tag::Anudatta]);
    let mut n = Term::make_upadesha("tAsi~");
    n.text = "tAs".to_string();
    n.add_tags(&[Tag::Pratyaya, Tag::Ardhadhatuka]);
    p.push(d);
    p.push(n);
    run_before_attva(&mut p, &["raDa~"], &[]);
    assert_eq!(texts(&p), vec!["raD", "tAs"]);
    assert!(matches!(p.rule_choices()[0], RuleChoice::Decline("7.2.45")));
}

#[test]
fn gam_takes_it_before_s_of_parasmaipada() {
    let mut p = derivation(
        "ga\\mx~",
        "gam",
        &[Tag::Anudatta],
        "sya",
        "sya",
        &[Tag::Ardhadhatuka, Tag::Parasmaipada],
    );
    run_before_attva(&mut p, &[], &[]);
    assert_eq!(texts(&p), vec!["gam", "i", "sya"]);
    assert_eq!(p.history()[0].rule, "7.2.58");
}

#[test]
fn krt_not_of_vash_is_anit() {
    let mut p = Prakriya::new();
    let mut d = Term::make_upadesha("qupa\\ca~^z");
    d.text = "pac".to_string();
    d.add_tags(&[Tag::Dhatu, Tag::Krt]);
    p.push(d);
    let mut n = Term::make_upadesha("tAsi~");
    n.text = "tAs".to_string();
    n.add_tags(&[Tag::Pratyaya, Tag::Ardhadhatuka]);
    p.push(n);
    run_before_attva(&mut p, &[], &[]);
    assert_eq!(texts(&p), vec!["pac", "tAs"]);
}

#[test]
fn nothing_without_a_dhatu() {
    let mut p = Prakriya::new();
    p.push(Term::make_text("BU"));
    run_before_attva(&mut p, &[], &[]);
    assert_eq!(p.terms().len(), 1);
}

#[test]
fn hacky_eka_ac_counts_fa() {
    assert!(is_hacky_eka_ac(&Term::make_text("kf")));
    assert!(is_hacky_eka_ac(&Term::make_text("kfaf")));
    assert!(!is_hacky_eka_ac(&Term::make_text("gamaya")));
}
