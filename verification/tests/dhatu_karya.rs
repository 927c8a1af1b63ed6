use vidyut_prakriya::constants::{La, Tag as T};
use vidyut_prakriya::dhatu_karya::{parse_int, run};
use vidyut_prakriya::prakriya::Prakriya;
use vidyut_prakriya::sanadi;
use vidyut_prakriya::term::Term;

fn check(text: &str, code: &str) -> Term {
    let mut p = Prakriya::new();
    run(&mut p, text, code, &[], &[], &[]).unwrap();
    p.get(0).unwrap().clone()
}

#[test]
fn test_basic() {
    let t = check("ga\\mx~", "01.1137");
    assert_eq!(t.text, "gam");
    assert!(t.has_tag(T::Dhatu));
}

#[test]
fn test_ghu() {
    let t = check("qudA\\Y", "03.0010");
    assert_eq!(t.text, "dA");
    assert!(t.all(&[T::Dhatu, T::Ghu]));
}

#[test]
fn test_satva() {
    let t = check("zaha~\\", "01.0988");
    assert_eq!(t.text, "sah");
    assert!(t.all(&[T::Dhatu, T::FlagAdeshadi]));

    let t = check("zWA\\", "01.1077");
    assert_eq!(t.text, "sTA");
    assert!(t.all(&[T::Dhatu, T::FlagAdeshadi]));
}

#[test]
fn test_satva_blocked() {
    let t = check("zWivu~", "04.0004");
    assert_eq!(t.text, "zWiv");
    assert!(!t.has_tag(T::FlagAdeshadi));

    let t = check("zvazka~\\", "01.0105");
    assert_eq!(t.text, "zvazk");
    assert!(!t.has_tag(T::FlagAdeshadi));
}

#[test]
fn test_natva() {
    let t = check("RI\\Y", "01.1049");
    assert_eq!(t.text, "nI");
    assert!(t.all(&[T::Dhatu, T::FlagAdeshadi]));
}

#[test]
fn test_num_agama() {
    let t = check("vadi~\\", "01.0011");
    assert_eq!(t.text, "vand");
    assert!(t.has_tag(T::Dhatu));
}

#[test]
fn dhatu_karya_reads_gana_and_number() {
    let t = check("BU", "01.0001");
    assert_eq!(t.gana, Some(1));
    assert_eq!(t.number, Some(1));
}

#[test]
fn dhatu_karya_rejects_a_bad_code() {
    let mut p = Prakriya::new();
    assert!(run(&mut p, "BU", "01.x", &[], &[], &[]).is_err());
    assert_eq!(p.terms().len(), 0);
}

#[test]
fn dhatu_karya_adds_adhi_for_i() {
    let mut p = Prakriya::new();
    run(&mut p, "i\\N", "02.0041", &[], &[], &[]).unwrap();
    assert_eq!(p.terms()[0].text, "aDi");
    assert!(p.terms()[0].has_tag(T::Upasarga));
    assert_eq!(p.terms()[1].text, "i");
}

#[test]
fn dhatu_karya_kusmadi_is_atmanepada() {
    let mut p = Prakriya::new();
    run(&mut p, "kusma~", "10.0200", &[], &["kusma~"], &[]).unwrap();
    assert!(p.has_tag(T::Atmanepada));
    let mut p = Prakriya::new();
    run(&mut p, "kusma~", "10.0100", &[], &["kusma~"], &[]).unwrap();
    assert!(!p.has_tag(T::Atmanepada));
}

#[test]
fn dhatu_karya_cur_mit() {
    let mut p = Prakriya::new();
    run(&mut p, "jYapa~", "10.0005", &["jYapa~"], &[], &[]).unwrap();
    assert!(p.terms()[0].has_tag(T::mit));
}

#[test]
fn parse_int_reads_as_str_parse() {
    for s in ["0", "01", "1137", "+5", "-12", "2147483647", "-2147483648", "2147483648", "", "-", "1a", "x"] {
        assert_eq!(parse_int(s), s.parse::<i32>().ok(), "{}", s);
    }
}

fn sanadi_check(dhatu: &str, code: &str) -> (Term, Term) {
    let mut p = Prakriya::new();
    run(&mut p, dhatu, code, &[], &[], &[]).unwrap();
    sanadi::run(&mut p, La::Lat).unwrap();
    let dhatu = p.get(0).unwrap();
    let pratyaya = p.get(1).unwrap();
    (dhatu.clone(), pratyaya.clone())
}

#[test]
fn test_gup() {
    let (_, p) = sanadi_check("gupa~\\", "01.1125");
    assert_eq!(p.text, "sa");
    assert!(p.all(&[T::Pratyaya, T::FlagNoArdhadhatuka]));
}

#[test]
fn test_man() {
    let (_, p) = sanadi_check("mAna~\\", "01.1127");
    assert_eq!(p.text, "sa");
    assert!(p.all(&[T::Pratyaya, T::FlagNoArdhadhatuka]));
}

#[test]
fn test_curadi() {
    let (_, p) = sanadi_check("cura~", "10.0001");
    assert_eq!(p.text, "i");
    assert!(p.has_tag(T::Pratyaya));
}

#[test]
fn test_ayadaya() {
    let (_, p) = sanadi_check("gupU~", "01.0461");
    assert_eq!(p.text, "Aya");
    assert!(p.has_tag(T::Pratyaya));

    let (_, p) = sanadi_check("fti", "01.1166");
    assert_eq!(p.text, "Iya");
    assert!(p.all(&[T::Pratyaya, T::Nit]));

    let (_, p) = sanadi_check("kamu~\\", "01.0511");
    assert_eq!(p.text, "i");
    assert!(p.all(&[T::Pratyaya, T::Rit, T::Nit]));
}
