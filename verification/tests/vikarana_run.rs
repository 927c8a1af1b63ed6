use vidyut_prakriya::constants::Tag;
use vidyut_prakriya::prakriya::Prakriya;
use vidyut_prakriya::term::Term;
use vidyut_prakriya::vikarana;

fn dhatu_and_tin(text: &str, gana: i32, la: &str, tags: &[Tag]) -> Prakriya {
    let mut p = Prakriya::new();
    p.add_tag(Tag::Kartari);
    let mut d = Term::make_dhatu(text, gana, 1);
    d.add_tag(Tag::Dhatu);
    let mut tin = Term::make_upadesha("tip");
    tin.text = "ti".to_string();
    tin.add_tag(Tag::Tin);
    tin.add_tags(tags);
    tin.lakshana.push(la.to_string());
    p.push(d);
    p.push(tin);
    p
}

#[test]
fn vikarana_run_adds_sap_before_sarvadhatuka() {
    let mut p = dhatu_and_tin("BU", 1, "la~w", &[Tag::Sarvadhatuka, Tag::Parasmaipada]);
    vikarana::run(&mut p, &[], &[], &[]).unwrap();
    assert_eq!(p.terms().len(), 3);
    assert_eq!(p.terms()[1].u.as_deref(), Some("Sap"));
    assert_eq!(p.terms()[1].text, "a");
}

#[test]
fn vikarana_run_deletes_sap_in_the_second_gana() {
    let mut p = dhatu_and_tin("ad", 2, "la~w", &[Tag::Sarvadhatuka, Tag::Parasmaipada]);
    vikarana::run(&mut p, &[], &[], &[]).unwrap();
    assert_eq!(p.terms()[1].u.as_deref(), Some("Sap"));
    assert_eq!(p.terms()[1].text, "");
    assert!(p.terms()[1].has_tag(Tag::Luk));
}

#[test]
fn vikarana_run_adds_sya_before_lrt() {
    let mut p = dhatu_and_tin("BU", 1, "lf~w", &[Tag::Ardhadhatuka]);
    vikarana::run(&mut p, &[], &[], &[]).unwrap();
    assert_eq!(p.terms()[1].text, "sya");
}

#[test]
fn vikarana_run_adds_tas_before_lut() {
    let mut p = dhatu_and_tin("BU", 1, "lu~w", &[Tag::Ardhadhatuka]);
    vikarana::run(&mut p, &[], &[], &[]).unwrap();
    assert_eq!(p.terms()[1].u.as_deref(), Some("tAsi~"));
    assert_eq!(p.terms()[1].text, "tAs");
}

#[test]
fn vikarana_run_lun_of_bhu_drops_sic() {
    let mut p = dhatu_and_tin("BU", 1, "lu~N", &[Tag::Parasmaipada]);
    vikarana::run(&mut p, &[], &[], &[]).unwrap();
    assert_eq!(p.terms()[1].u.as_deref(), Some("si~c"));
    assert_eq!(p.terms()[1].text, "");
}

#[test]
fn vikarana_run_ga_absorbs_a() {
    let mut p = dhatu_and_tin("gA", 1, "la~w", &[Tag::Sarvadhatuka, Tag::Atmanepada]);
    vikarana::run(&mut p, &[], &[], &[]).unwrap();
    assert_eq!(p.terms()[0].text, "gA");
    assert_eq!(p.terms()[1].text, "");
}

#[test]
fn vikarana_ksa_after_shal_igupadha() {
    let mut p = dhatu_and_tin("duh", 2, "lu~N", &[Tag::Parasmaipada]);
    p.terms_mut()[0].add_tag(Tag::Anudatta);
    vikarana::run(&mut p, &[], &[], &[]).unwrap();
    assert_eq!(p.terms()[1].u.as_deref(), Some("ksa"));
}
