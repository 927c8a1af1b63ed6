use vidyut_prakriya::angasya::{maybe_do_jha_adesha, try_pratyaya_adesha};
use vidyut_prakriya::constants::Tag;
use vidyut_prakriya::prakriya::{Config, Prakriya, RuleChoice};
use vidyut_prakriya::term::Term;

fn term(u: &str, text: &str, tags: &[Tag]) -> Term {
    let mut t = Term::make_upadesha(u);
    t.text = text.to_string();
    for tag in tags {
        t.add_tag(*tag);
    }
    t
}

fn make(choices: Vec<RuleChoice>, terms: Vec<Term>) -> Prakriya {
    let mut p = Prakriya::with_config(Config {
        rule_choices: choices,
        log_steps: true,
    });
    for t in terms {
        p.push(t);
    }
    p
}

fn texts(p: &Prakriya) -> Vec<String> {
    p.terms().iter().map(|t| t.text.clone()).collect()
}

fn adesha_of(choices: Vec<RuleChoice>, terms: Vec<Term>) -> Vec<String> {
    let mut p = make(choices, terms);
    assert_eq!(try_pratyaya_adesha(&mut p), Some(()));
    texts(&p)
}

#[test]
fn yu_and_vu() {
    let d = || term("qukf\\Y", "kar", &[Tag::Dhatu]);
    assert_eq!(adesha_of(vec![], vec![d(), term("lyu~w", "yu~", &[Tag::Pratyaya])]), vec!["kar", "ana"]);
    assert_eq!(adesha_of(vec![], vec![d(), term("Rvu~l", "vu~", &[Tag::Pratyaya])]), vec!["kar", "aka"]);
}

#[test]
fn initial_pha_dha_kha_cha_gha() {
    let d = || term("x", "upagu", &[]);
    assert_eq!(adesha_of(vec![], vec![d(), term("Pak", "Pa", &[])]), vec!["upagu", "Ayana"]);
    assert_eq!(adesha_of(vec![], vec![d(), term("Qak", "Qa", &[])]), vec!["upagu", "eya"]);
    assert_eq!(adesha_of(vec![], vec![d(), term("Ka", "Ka", &[])]), vec!["upagu", "Ina"]);
    assert_eq!(adesha_of(vec![], vec![d(), term("Ca", "Ca", &[])]), vec!["upagu", "Iya"]);
    assert_eq!(adesha_of(vec![], vec![d(), term("Ga", "Ga", &[])]), vec!["upagu", "ina"]);
}

#[test]
fn initial_jha() {
    let ji = || term("Ji", "Ji", &[Tag::Pratyaya, Tag::Parasmaipada]);
    assert_eq!(adesha_of(vec![], vec![term("BU", "Bava", &[]), ji()]), vec!["Bava", "anti"]);
    assert_eq!(
        adesha_of(vec![], vec![term("hu\\", "juho", &[Tag::Abhyasta]), ji()]),
        vec!["juho", "ati"]
    );
    let ja = || term("Ja", "Ja", &[Tag::Pratyaya, Tag::Atmanepada]);
    assert_eq!(adesha_of(vec![], vec![term("ci\\Y", "cinu", &[]), ja()]), vec!["cinu", "ata"]);
    assert_eq!(adesha_of(vec![], vec![term("eDa~\\", "eDa", &[]), ja()]), vec!["eDa", "anta"]);
    assert_eq!(adesha_of(vec![], vec![term("SIN", "Se", &[]), ja()]), vec!["Se", "r", "ata"]);

    let mut vid = term("vida~", "vid", &[]);
    vid.gana = Some(2);
    assert_eq!(adesha_of(vec![], vec![vid.clone(), ja()]), vec!["vid", "r", "ata"]);
    assert_eq!(
        adesha_of(vec![RuleChoice::Decline("7.1.7")], vec![vid, ja()]),
        vec!["vid", "ata"]
    );
}

#[test]
fn jha_needs_a_base() {
    let mut empty = term("Sap", "", &[]);
    empty.text = String::new();
    let mut p = make(vec![], vec![empty, term("Ji", "Ji", &[])]);
    assert_eq!(maybe_do_jha_adesha(&mut p, 1), None);
    assert_eq!(texts(&p), vec!["", "Ji"]);

    let mut p = make(vec![], vec![term("BU", "Bava", &[]), term("tip", "ti", &[])]);
    assert_eq!(maybe_do_jha_adesha(&mut p, 1), None);
    assert_eq!(maybe_do_jha_adesha(&mut p, 7), None);
}

#[test]
fn tat_for_tu_and_hi() {
    let tu = || term("tip", "tu", &[Tag::Tin]);
    assert_eq!(adesha_of(vec![], vec![term("BU", "Bava", &[]), tu()]), vec!["Bava", "tAt"]);
    assert_eq!(
        adesha_of(vec![RuleChoice::Decline("7.1.35")], vec![term("BU", "Bava", &[]), tu()]),
        vec!["Bava", "tu"]
    );
}

#[test]
fn shna_becomes_shanac() {
    let shna = term("SnA", "nA", &[Tag::Pratyaya]);
    assert_eq!(
        adesha_of(vec![], vec![term("muza~", "muz", &[]), shna, term("hi", "hi", &[])]),
        vec!["muz", "Ana", "hi"]
    );
}

#[test]
fn pratyaya_adesha_needs_two_terms() {
    let mut p = make(vec![], vec![term("yu~", "yu~", &[])]);
    assert_eq!(try_pratyaya_adesha(&mut p), None);
    assert_eq!(texts(&p), vec!["yu~"]);
}
