use vidyut_prakriya::abhyasasya::{run, try_haladi, try_shar_purva};
use vidyut_prakriya::constants::Tag;
use vidyut_prakriya::prakriya::Prakriya;
use vidyut_prakriya::term::Term;

#[test]
fn test_try_haladi() {
    assert_eq!(try_haladi("BU"), "BU");
    assert_eq!(try_haladi("i"), "i");
    assert_eq!(try_haladi("kram"), "ka");
}

#[test]
fn test_try_shar_purva() {
    assert_eq!(try_shar_purva("sTA"), "TA");
    assert_eq!(try_shar_purva("Scyut"), "cu");
    assert_eq!(try_shar_purva("sparD"), "pa");
}

fn abhyasa_and_dhatu(text: &str) -> Prakriya {
    let mut p = Prakriya::new();
    let mut a = Term::make_text(text);
    a.add_tag(Tag::Abhyasa);
    let mut d = Term::make_text(text);
    d.add_tag(Tag::Dhatu);
    p.push(a);
    p.push(d);
    p
}

#[test]
fn run_shortens_and_palatalizes_the_abhyasa() {
    let mut p = abhyasa_and_dhatu("kram");
    run(&mut p);
    assert_eq!(p.terms()[0].text, "ca");
    assert_eq!(p.terms()[1].text, "kram");
    assert_eq!(p.text().as_str(), "cakram");
}

#[test]
fn run_shortens_a_final_long_vowel() {
    let mut p = abhyasa_and_dhatu("BU");
    run(&mut p);
    assert_eq!(p.terms()[0].text, "Bu");
}

#[test]
fn run_replaces_a_final_f_with_a() {
    let mut p = abhyasa_and_dhatu("kf");
    run(&mut p);
    assert_eq!(p.terms()[0].text, "ca");
}

#[test]
fn run_changes_dyut_to_dit() {
    let mut p = abhyasa_and_dhatu("dyut");
    run(&mut p);
    assert_eq!(p.terms()[1].text, "dit");
    assert_eq!(p.terms()[0].text, "dyut");
}

#[test]
fn run_uses_shar_purva_for_sthA() {
    let mut p = abhyasa_and_dhatu("sTA");
    run(&mut p);
    assert_eq!(p.terms()[0].text, "Ta");
}

#[test]
fn run_without_a_dhatu_changes_nothing() {
    let mut p = Prakriya::new();
    let mut a = Term::make_text("kram");
    a.add_tag(Tag::Abhyasa);
    p.push(a);
    p.push(Term::make_text("a"));
    run(&mut p);
    assert_eq!(p.terms()[0].text, "kram");
}
