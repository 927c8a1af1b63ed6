use vidyut_prakriya::angasya::try_add_num_agama;
use vidyut_prakriya::constants::Tag;
use vidyut_prakriya::prakriya::Prakriya;
use vidyut_prakriya::term::Term;

fn two(u: &str, text: &str, n_u: &str, n_text: &str, n_tags: &[Tag]) -> Prakriya {
    let mut p = Prakriya::new();
    let mut d = Term::make_upadesha(u);
    d.text = text.to_string();
    d.add_tag(Tag::Dhatu);
    let mut n = Term::make_upadesha(n_u);
    n.text = n_text.to_string();
    n.add_tags(n_tags);
    p.push(d);
    p.push(n);
    p
}

#[test]
fn num_for_muc_adi_before_sa() {
    let mut p = two("mucx~", "muc", "Sa", "a", &[Tag::Pratyaya]);
    assert!(try_add_num_agama(&mut p, &["mucx~"], &[]).is_some());
    assert_eq!(p.terms()[0].text, "munc");
}

#[test]
fn num_for_masj_before_jhal() {
    let mut p = two("wumasjo~", "masj", "kta", "ta", &[Tag::Pratyaya]);
    try_add_num_agama(&mut p, &[], &[]).unwrap();
    assert_eq!(p.terms()[0].text, "mansj");
}

#[test]
fn num_for_labh_before_a_vowel() {
    let mut p = two("qula\\Ba~\\z", "laB", "Ral", "a", &[Tag::Pratyaya]);
    try_add_num_agama(&mut p, &[], &[]).unwrap();
    assert_eq!(p.terms()[0].text, "lanB");
}

#[test]
fn nut_before_am_after_a_short_vowel() {
    let mut p = two("rAma", "rAma", "Am", "Am", &[Tag::Sup]);
    try_add_num_agama(&mut p, &[], &[]).unwrap();
    let texts: Vec<&str> = p.terms().iter().map(|t| t.text.as_str()).collect();
    assert_eq!(texts, vec!["rAma", "n", "Am"]);
}

#[test]
fn num_needs_a_dhatu() {
    let mut p = Prakriya::new();
    p.push(Term::make_text("muc"));
    assert!(try_add_num_agama(&mut p, &["mucx~"], &[]).is_none());
}
