use vidyut_prakriya::arguments::La;
use vidyut_prakriya::constants::{La as Lakara, Tag};
use vidyut_prakriya::prakriya::{Config, Prakriya, RuleChoice};
use vidyut_prakriya::term::Term;
use vidyut_prakriya::{dvitva, la_karya, sanadi};

fn dhatu(u: &str, gana: i32, number: i32, text: &str) -> Term {
    let mut t = Term::make_dhatu(u, gana, number);
    t.text = text.to_string();
    t.add_tag(Tag::Dhatu);
    t
}

fn with_dhatu(u: &str, gana: i32, text: &str) -> Prakriya {
    let mut c = Config::new();
    c.log_steps = true;
    let mut p = Prakriya::with_config(c);
    p.push(dhatu(u, gana, 1, text));
    p
}

#[test]
fn la_karya_adds_lat_after_the_dhatu() {
    let mut p = with_dhatu("BU", 1, "BU");
    assert!(la_karya::run(&mut p, La::Lat).is_ok());
    assert_eq!(p.terms().len(), 2);
    let la = &p.terms()[1];
    assert_eq!(la.u.as_deref(), Some("la~w"));
    assert_eq!(la.text, "l");
    assert!(la.has_tag(Tag::Pratyaya));
    assert!(!p.has_tag(Tag::Ashih));
}

#[test]
fn la_karya_tags_ashir_lin() {
    let mut p = with_dhatu("BU", 1, "BU");
    assert!(la_karya::run(&mut p, La::AshirLin).is_ok());
    assert_eq!(p.terms()[1].u.as_deref(), Some("li~N"));
    assert_eq!(p.terms()[1].text, "l");
    assert!(p.has_tag(Tag::Ashih));
}

#[test]
fn la_karya_without_a_dhatu_changes_nothing() {
    let mut p = Prakriya::new();
    p.push(Term::make_text("BU"));
    assert!(la_karya::run(&mut p, La::Lit).is_ok());
    assert_eq!(p.terms().len(), 1);
}

#[test]
fn la_karya_records_its_rule() {
    let mut p = with_dhatu("BU", 1, "BU");
    la_karya::run(&mut p, La::Lun).unwrap();
    assert_eq!(p.history()[0].rule, "3.2.110");
    assert_eq!(p.terms()[1].u.as_deref(), Some("lu~N"));
}

#[test]
fn sanadi_gup_takes_san() {
    let mut p = with_dhatu("gupa~\\", 1, "gup");
    sanadi::run(&mut p, Lakara::Lat).unwrap();
    let t = &p.terms()[1];
    assert_eq!(t.text, "sa");
    assert!(t.all(&[Tag::Pratyaya, Tag::Dhatu, Tag::FlagNoArdhadhatuka]));
}

#[test]
fn sanadi_man_takes_san() {
    let mut p = with_dhatu("mAna~\\", 1, "mAn");
    sanadi::run(&mut p, Lakara::Lat).unwrap();
    let t = &p.terms()[1];
    assert_eq!(t.text, "sa");
    assert!(t.all(&[Tag::Pratyaya, Tag::FlagNoArdhadhatuka]));
}

#[test]
fn sanadi_kit_of_another_gana_takes_nothing() {
    let mut p = with_dhatu("kita~", 3, "kit");
    sanadi::run(&mut p, Lakara::Lat).unwrap();
    assert_eq!(p.terms().len(), 1);
}

#[test]
fn sanadi_curadi_takes_nic() {
    let mut p = with_dhatu("cura~", 10, "cur");
    sanadi::run(&mut p, Lakara::Lat).unwrap();
    let t = &p.terms()[1];
    assert_eq!(t.text, "i");
    assert!(t.has_tag(Tag::Pratyaya));
    assert!(!t.has_tag(Tag::FlagNoArdhadhatuka));
}

#[test]
fn sanadi_ayadaya() {
    let mut p = with_dhatu("gupU~", 1, "gup");
    sanadi::run(&mut p, Lakara::Lat).unwrap();
    assert_eq!(p.terms()[1].text, "Aya");
    assert!(p.terms()[1].has_tag(Tag::Pratyaya));

    let mut p = with_dhatu("fti", 1, "ft");
    sanadi::run(&mut p, Lakara::Lat).unwrap();
    assert_eq!(p.terms()[1].text, "Iya");
    assert!(p.terms()[1].all(&[Tag::Pratyaya, Tag::Nit]));

    let mut p = with_dhatu("kamu~\\", 1, "kam");
    sanadi::run(&mut p, Lakara::Lat).unwrap();
    assert_eq!(p.terms()[1].text, "i");
    assert!(p.terms()[1].all(&[Tag::Pratyaya, Tag::Rit, Tag::Nit]));
}

#[test]
fn sanadi_3_1_31_by_default_blocks_before_ardhadhatuka() {
    let mut p = with_dhatu("gupU~", 1, "gup");
    sanadi::run(&mut p, Lakara::Lit).unwrap();
    assert_eq!(p.terms().len(), 1);
    assert_eq!(p.rule_choices().len(), 1);
    assert!(matches!(p.rule_choices()[0], RuleChoice::Accept("3.1.31")));
}

#[test]
fn dvitva_doubles_before_lit() {
    let mut p = with_dhatu("BU", 1, "BU");
    let mut la = Term::make_upadesha("Ral");
    la.text = "a".to_string();
    la.add_tag(Tag::Pratyaya);
    la.lakshana.push("li~w".to_string());
    p.push(la);
    assert!(dvitva::run(&mut p).is_some());
    assert_eq!(p.terms().len(), 3);
    assert_eq!(p.terms()[0].text, "BU");
    assert!(p.terms()[0].all(&[Tag::Abhyasa, Tag::Abhyasta]));
    assert!(p.terms()[0].u.is_none());
    assert!(p.terms()[1].all(&[Tag::Dhatu, Tag::Abhyasta]));
    assert!(!p.terms()[2].has_tag(Tag::Abhyasta));
    assert_eq!(p.history()[0].rule, "6.1.8");
}

#[test]
fn dvitva_de_becomes_digi_before_lit() {
    let mut p = with_dhatu("de\\N", 1, "de");
    let mut la = Term::make_upadesha("e");
    la.add_tag(Tag::Pratyaya);
    la.lakshana.push("li~w".to_string());
    p.push(la);
    dvitva::run(&mut p).unwrap();
    assert_eq!(p.terms().len(), 2);
    assert_eq!(p.terms()[0].text, "digi");
}

#[test]
fn dvitva_ajadi_with_nic_doubles_after_the_vowel() {
    let mut p = with_dhatu("undI~", 7, "und");
    let mut ni = Term::make_upadesha("Ric");
    ni.text = "i".to_string();
    ni.add_tag(Tag::Pratyaya);
    p.push(ni);
    let mut can = Term::make_upadesha("caN");
    can.text = "a".to_string();
    can.add_tag(Tag::Pratyaya);
    p.push(can);
    dvitva::run(&mut p).unwrap();
    let texts: Vec<&str> = p.terms().iter().map(|t| t.text.as_str()).collect();
    assert_eq!(texts, vec!["und", "i", "di", "a"]);
    assert!(p.terms()[1].has_tag(Tag::Abhyasa));
    assert!(p.terms()[2].all(&[Tag::Dhatu, Tag::Abhyasta]));
    assert_eq!(p.terms()[2].u.as_deref(), Some("Ric"));
}

#[test]
fn dvitva_without_a_trigger_changes_nothing() {
    let mut p = with_dhatu("BU", 1, "BU");
    p.push(Term::make_upadesha("tip"));
    assert!(dvitva::run(&mut p).is_some());
    assert_eq!(p.terms().len(), 2);
}

#[test]
fn dvitva_jaksh_is_abhyasta_and_still_doubles() {
    let mut p = with_dhatu("jakza~", 2, "jakz");
    let mut s = Term::make_upadesha("san");
    s.text = "sa".to_string();
    s.add_tag(Tag::Pratyaya);
    p.push(s);
    dvitva::run(&mut p).unwrap();
    assert_eq!(p.terms().len(), 3);
    assert_eq!(p.terms()[0].text, "jakz");
    assert!(p.terms()[1].has_tag(Tag::Abhyasta));
}
