use vidyut_prakriya::ardhadhatuka::{dhatu_adesha_before_pada, dhatu_adesha_before_vikarana};
use vidyut_prakriya::constants::{La, Tag};
use vidyut_prakriya::prakriya::{Config, Prakriya, RuleChoice};
use vidyut_prakriya::term::Term;

fn dhatu(u: &str, text: &str) -> Term {
    let mut t = Term::make_dhatu(u, 1, 1);
    t.text = text.to_string();
    t.add_tag(Tag::Dhatu);
    t
}

fn suffix(u: &str, text: &str, lakshana: &[&str], tags: &[Tag]) -> Term {
    let mut t = Term::make_upadesha(u);
    t.text = text.to_string();
    for l in lakshana {
        t.lakshana.push(l.to_string());
    }
    t.add_tag(Tag::Pratyaya);
    for tag in tags {
        t.add_tag(*tag);
    }
    t
}

fn derive(choices: Vec<RuleChoice>, terms: Vec<Term>, la: La) -> Prakriya {
    let mut p = Prakriya::with_config(Config {
        rule_choices: choices,
        log_steps: true,
    });
    for t in terms {
        p.push(t);
    }
    dhatu_adesha_before_vikarana(&mut p, la);
    p
}

fn first_text(p: &Prakriya) -> String {
    p.terms()[0].text.clone()
}

#[test]
fn ad_becomes_ghasl_or_jagdhi() {
    let tip = suffix("tip", "ti", &["lu~N"], &[]);
    let p = derive(vec![], vec![dhatu("a\\da~", "ad"), tip], La::Lun);
    assert_eq!(first_text(&p), "Gas");
    assert_eq!(p.terms()[0].u, Some("Gasx~".to_string()));
    assert_eq!(p.terms()[0].lakshana, vec!["a\\da~".to_string()]);
    assert!(p.terms()[0].has_tag(Tag::xdit));
    assert!(p.terms()[0].has_tag(Tag::Dhatu));

    let kta = suffix("kta", "ta", &[], &[Tag::kit]);
    let p = derive(vec![], vec![dhatu("a\\da~", "ad"), kta], La::Lut);
    assert_eq!(first_text(&p), "jagD");

    let lit = suffix("tip", "ti", &["li~w"], &[]);
    let p = derive(vec![], vec![dhatu("a\\da~", "ad"), lit.clone()], La::Lit);
    assert_eq!(first_text(&p), "Gas");
    let p = derive(vec![RuleChoice::Decline("2.4.40")], vec![dhatu("a\\da~", "ad"), lit], La::Lit);
    assert_eq!(first_text(&p), "ad");
}

#[test]
fn han_becomes_vadha() {
    let lin = suffix("tip", "ti", &["li~N"], &[]);
    let p = derive(vec![], vec![dhatu("ha\\na~", "han"), lin], La::AshirLin);
    assert_eq!(first_text(&p), "vaDa");

    let lun = suffix("ta", "ta", &["lu~N"], &[Tag::Atmanepada]);
    let p = derive(vec![RuleChoice::Decline("2.4.44")], vec![dhatu("ha\\na~", "han"), lun.clone()], La::Lun);
    assert_eq!(first_text(&p), "han");
    let p = derive(vec![], vec![dhatu("ha\\na~", "han"), lun], La::Lun);
    assert_eq!(first_text(&p), "vaDa");
}

#[test]
fn i_becomes_ga_or_gami() {
    let mut i = dhatu("i\\R", "i");
    i.lakshana.push("lu~N".to_string());
    let p = derive(vec![], vec![i, suffix("tip", "ti", &[], &[])], La::Lun);
    assert_eq!(first_text(&p), "gA");

    let p = derive(vec![], vec![dhatu("i\\N", "i"), suffix("san", "sa", &[], &[])], La::Lat);
    assert_eq!(first_text(&p), "i");
    let p = derive(vec![], vec![dhatu("i\\N", "i"), suffix("san", "sa", &[], &[])], La::Lut);
    assert_eq!(first_text(&p), "gam");

    let p = derive(vec![], vec![dhatu("i\\k", "i"), suffix("Ric", "i", &[], &[])], La::Lut);
    assert_eq!(first_text(&p), "gam");
    assert_eq!(p.history()[0].rule, "2.4.45.v1");
}

#[test]
fn as_and_bru_are_replaced() {
    let p = derive(vec![], vec![dhatu("asa~", "as"), suffix("tip", "ti", &[], &[])], La::Lrt);
    assert_eq!(first_text(&p), "BU");

    let p = derive(vec![], vec![dhatu("brUY", "brU"), suffix("tip", "ti", &[], &[])], La::Lrt);
    assert_eq!(first_text(&p), "vac");
    assert!(p.terms()[0].has_tag(Tag::Anudatta));
    assert!(p.terms()[0].has_tag(Tag::idit));
}

#[test]
fn aj_becomes_vi_unless_blocked() {
    let lyuw = suffix("lyuw", "ana", &[], &[]);
    let p = derive(vec![], vec![dhatu("aja~", "aj"), lyuw.clone()], La::Lut);
    assert_eq!(first_text(&p), "aj");
    let p = derive(vec![RuleChoice::Decline("2.4.57")], vec![dhatu("aja~", "aj"), lyuw], La::Lut);
    assert_eq!(first_text(&p), "vI");

    let tfc = suffix("tfc", "tf", &[], &[]);
    let p = derive(vec![], vec![dhatu("aja~", "aj"), tfc.clone()], La::Lut);
    assert_eq!(first_text(&p), "aj");
    let p = derive(vec![RuleChoice::Decline("2.4.56.v2")], vec![dhatu("aja~", "aj"), tfc], La::Lut);
    assert_eq!(first_text(&p), "vI");

    let p = derive(vec![], vec![dhatu("aja~", "aj"), suffix("GaY", "a", &[], &[])], La::Lut);
    assert_eq!(first_text(&p), "aj");
}

#[test]
fn no_adesha_before_sarvadhatuka() {
    let p = derive(vec![], vec![dhatu("asa~", "as"), suffix("tip", "ti", &[], &[])], La::Lat);
    assert_eq!(first_text(&p), "as");
    let p = derive(vec![], vec![suffix("tip", "ti", &[], &[])], La::Lrt);
    assert_eq!(first_text(&p), "ti");
}

#[test]
fn caks_becomes_khya() {
    let mut caks = dhatu("ca\\kzi~\\N", "cakz");
    caks.add_tags(&[Tag::anudattet, Tag::Nit, Tag::idit]);

    let mut p = Prakriya::new();
    p.push(caks.clone());
    dhatu_adesha_before_pada(&mut p, La::Lut);
    let t = &p.terms()[0];
    assert_eq!(t.text, "KyA");
    assert!(t.has_tag(Tag::Yit));
    assert!(t.has_tag(Tag::Anudatta));
    assert!(!t.has_tag(Tag::Nit));
    assert!(!t.has_tag(Tag::anudattet));

    let mut p = Prakriya::new();
    p.push(caks.clone());
    dhatu_adesha_before_pada(&mut p, La::Lit);
    assert_eq!(p.terms()[0].text, "cakz");

    let mut p = Prakriya::with_config(Config {
        rule_choices: vec![RuleChoice::Decline("2.4.55")],
        log_steps: false,
    });
    p.push(caks.clone());
    dhatu_adesha_before_pada(&mut p, La::Lit);
    assert_eq!(p.terms()[0].text, "KyA");

    let mut p = Prakriya::new();
    p.push(caks);
    dhatu_adesha_before_pada(&mut p, La::Lat);
    assert_eq!(p.terms()[0].text, "cakz");
}
