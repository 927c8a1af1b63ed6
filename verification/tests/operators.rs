use vidyut_prakriya::constants::Tag as T;
use vidyut_prakriya::operators::{adi, antya, lopa, luk, lup, mit, slu, ti, upadha, yatha};
use vidyut_prakriya::term::Term;

#[test]
fn operators_test_adi() {
    let mut t = Term::make_text("ji");
    adi("g")(&mut t);
    assert_eq!(t.text, "gi");
}

#[test]
fn operators_test_antya() {
    let mut t = Term::make_text("ti");
    antya("")(&mut t);
    assert_eq!(t.text, "t");
}

#[test]
fn operators_test_upadha() {
    let mut t = Term::make_text("sPur");
    upadha("A")(&mut t);
    assert_eq!(t.text, "sPAr");
}

#[test]
fn operators_test_mit() {
    let mut t = Term::make_text("vid");
    mit("n")(&mut t);
    assert_eq!(t.text, "vind");
}

#[test]
fn operators_test_ti() {
    let mut t = Term::make_text("AtAm");
    ti("e")(&mut t);
    assert_eq!(t.text, "Ate");
}

#[test]
fn operators_test_lopa() {
    let mut t = Term::make_text("ti");
    lopa(&mut t);
    assert_eq!(t.text, "");
}

#[test]
fn operators_test_luk() {
    let mut t = Term::make_text("ti");
    luk(&mut t);
    assert_eq!(t.text, "");
    assert!(t.has_tag(T::Luk));
}

#[test]
fn operators_test_slu() {
    let mut t = Term::make_text("ti");
    slu(&mut t);
    assert_eq!(t.text, "");
    assert!(t.has_tag(T::Slu));
}

#[test]
fn operators_test_lup() {
    let mut t = Term::make_text("ti");
    lup(&mut t);
    assert_eq!(t.text, "");
    assert!(t.has_tag(T::Lup));
}

#[test]
fn operators_yatha_finds_the_matching_entry() {
    let old = ["tas", "Tas", "Ta", "mi"];
    let new = ["tAm", "tam", "ta", "am"];
    assert_eq!(yatha("Ta", &old, &new), Some("ta"));
    assert_eq!(yatha("xyz", &old, &new), None);
}
