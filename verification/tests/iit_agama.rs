use vidyut_prakriya::angasya::iit_agama;
use vidyut_prakriya::constants::Tag;
use vidyut_prakriya::prakriya::Prakriya;
use vidyut_prakriya::term::Term;

fn anga_and_tin(u: &str, text: &str, tin_text: &str, tags: &[Tag]) -> Prakriya {
    let mut p = Prakriya::new();
    let mut d = Term::make_upadesha(u);
    d.text = text.to_string();
    d.add_tag(Tag::Dhatu);
    let mut tin = Term::make_upadesha("tip");
    tin.text = tin_text.to_string();
    tin.add_tags(tags);
    p.push(d);
    p.push(tin);
    p
}

fn texts(p: &Prakriya) -> Vec<String> {
    p.terms().iter().map(|t| t.text.clone()).collect()
}

#[test]
fn iit_agama_after_bru_before_pit() {
    let mut p = anga_and_tin("brUY", "brU", "ti", &[Tag::Sarvadhatuka, Tag::pit]);
    assert!(iit_agama(&mut p).is_some());
    assert_eq!(texts(&p), vec!["brU", "I", "ti"]);
    assert!(p.terms()[1].has_tag(Tag::Agama));
}

#[test]
fn iit_agama_before_aprkta_after_rud() {
    let mut p = anga_and_tin("rud", "rud", "s", &[Tag::Sarvadhatuka]);
    assert!(iit_agama(&mut p).is_some());
    assert_eq!(texts(&p), vec!["rud", "I", "s"]);
}

#[test]
fn iit_agama_needs_a_sarvadhatuka() {
    let mut p = anga_and_tin("brUY", "brU", "ti", &[Tag::pit]);
    assert!(iit_agama(&mut p).is_some());
    assert_eq!(texts(&p), vec!["brU", "ti"]);
}

#[test]
fn iit_agama_without_an_anga() {
    let mut p = Prakriya::new();
    p.push(Term::make_text("ti"));
    assert!(iit_agama(&mut p).is_none());
}
