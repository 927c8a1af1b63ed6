use vidyut_prakriya::prakriya::Prakriya;
use vidyut_prakriya::angasya::{can_use_guna_or_vrddhi, op_antya_guna};
use vidyut_prakriya::ardhadhatuka::will_cause_guna;
use vidyut_prakriya::ashtadhyayi::Ashtadhyayi;
use vidyut_prakriya::asiddhavat::is_samyogapurva;
use vidyut_prakriya::constants::{Purusha, Tag, Vacana};
use vidyut_prakriya::dhatupatha::is_kutadi;
use vidyut_prakriya::it_agama::is_hacky_eka_ac;
use vidyut_prakriya::sup_adesha::yatha;
use vidyut_prakriya::term::{Term, TermView};
use vidyut_prakriya::tin_pratyaya::{find_tin_atmane, find_tin_parasmai};

#[test]
fn tin_endings() {
    assert_eq!(find_tin_parasmai(Purusha::Prathama, Vacana::Eka), "tip");
    assert_eq!(find_tin_parasmai(Purusha::Uttama, Vacana::Bahu), "mas");
    assert_eq!(find_tin_atmane(Purusha::Madhyama, Vacana::Dvi), "ATAm");
    assert_eq!(find_tin_atmane(Purusha::Uttama, Vacana::Bahu), "mahiN");
}

#[test]
fn sup_yatha() {
    static OLD: [&str; 2] = ["Nasi~", "Ni"];
    static NEW: [&str; 2] = ["smAt", "smin"];
    assert_eq!(yatha("Ni", &OLD, &NEW), Some("smin"));
    assert_eq!(yatha("Bis", &OLD, &NEW), None);
}

#[test]
fn kutadi_dhatus() {
    assert!(is_kutadi(&Term::make_dhatu("kuwa~", 6, 93)));
    assert!(is_kutadi(&Term::make_dhatu("x", 6, 137)));
    assert!(!is_kutadi(&Term::make_dhatu("x", 6, 138)));
    assert!(!is_kutadi(&Term::make_dhatu("x", 1, 100)));
    assert!(!is_kutadi(&Term::make_text("x")));
}

#[test]
fn antya_guna() {
    let mut t = Term::make_text("ci");
    op_antya_guna(&mut t);
    assert_eq!(t.text, "ce");
    assert!(t.has_tag(Tag::FlagGuna));

    let mut t = Term::make_text("gam");
    op_antya_guna(&mut t);
    assert_eq!(t.text, "gam");
    assert!(!t.has_tag(Tag::FlagGuna));
}

#[test]
fn samyogapurva() {
    assert!(is_samyogapurva(&[Term::make_text("ga"), Term::make_text("st")]));
    assert!(is_samyogapurva(&[Term::make_text("as"), Term::make_text("t")]));
    assert!(!is_samyogapurva(&[Term::make_text("gat")]));
    assert!(!is_samyogapurva(&[Term::make_text("t")]));
}

#[test]
fn hacky_eka_ac() {
    assert!(is_hacky_eka_ac(&Term::make_text("gam")));
    assert!(is_hacky_eka_ac(&Term::make_text("dfaS")));
    assert!(!is_hacky_eka_ac(&Term::make_text("gama")));
}

#[test]
fn guna_before_a_pratyaya() {
    let anga = Term::make_text("ci");
    let mut n = Term::make_text("ta");
    n.add_tag(Tag::Pratyaya);
    let terms = vec![anga.clone(), n];
    let view = TermView::new(&terms, 1).unwrap();
    assert!(can_use_guna_or_vrddhi(&anga, &view));
    assert!(will_cause_guna(view));

    let mut kit = Term::make_text("ta");
    kit.add_tags(&[Tag::Pratyaya, Tag::kit]);
    let terms = vec![anga.clone(), kit];
    let view = TermView::new(&terms, 1).unwrap();
    assert!(!can_use_guna_or_vrddhi(&anga, &view));
}

#[test]
fn apit_sarvadhatuka_causes_no_guna() {
    let mut n = Term::make_text("tas");
    n.add_tags(&[Tag::Pratyaya, Tag::Sarvadhatuka]);
    let terms = vec![Term::make_text("BU"), n];
    let view = TermView::new(&terms, 1).unwrap();
    assert!(!will_cause_guna(view));
}

#[test]
fn ashtadhyayi_builders() {
    let _a = Ashtadhyayi::new();
    let _b = Ashtadhyayi::builder().log_steps(false).build();
    let _c = Ashtadhyayi::default();
}

#[test]
fn samjna_names_pratyayas() {
    let mut p = Prakriya::new();
    p.push(Term::make_text("BU"));
    let mut tip = Term::make_upadesha("tip");
    tip.add_tags(&[Tag::Pratyaya, Tag::Tin]);
    p.push(tip);
    let mut lit = Term::make_text("a");
    lit.add_tag(Tag::Pratyaya);
    lit.lakshana.push("li~w".to_string());
    p.push(lit);
    let mut blocked = Term::make_text("a");
    blocked.add_tags(&[Tag::Pratyaya, Tag::FlagNoArdhadhatuka]);
    p.push(blocked);
    vidyut_prakriya::samjna::run(&mut p);
    assert!(!p.terms()[0].has_tag(Tag::Sarvadhatuka));
    assert!(p.terms()[1].has_tag(Tag::Sarvadhatuka));
    assert!(p.terms()[2].has_tag(Tag::Ardhadhatuka));
    assert!(!p.terms()[3].has_tag(Tag::Ardhadhatuka));
}
