use vidyut_prakriya::constants::Tag as T;
use vidyut_prakriya::operations::{adi, antya, lopa, luk, lup, mit, slu, ti, upadha};
use vidyut_prakriya::term::Term;

#[test]
fn operations_test_adi() {
    let mut t = Term::make_text("ji");
    adi(&mut t, "g");
    assert_eq!(t.text, "gi");
}

#[test]
fn operations_test_antya() {
    let mut t = Term::make_text("ti");
    antya(&mut t, "");
    assert_eq!(t.text, "t");
}

#[test]
fn operations_test_upadha() {
    let mut t = Term::make_text("sPur");
    upadha(&mut t, "A");
    assert_eq!(t.text, "sPAr");
}

#[test]
fn operations_test_mit() {
    let mut t = Term::make_text("vid");
    mit(&mut t, "n");
    assert_eq!(t.text, "vind");
}

#[test]
fn operations_test_ti() {
    let mut t = Term::make_text("AtAm");
    ti(&mut t, "e");
    assert_eq!(t.text, "Ate");
}

#[test]
fn operations_test_lopa() {
    let mut t = Term::make_text("ti");
    lopa(&mut t);
    assert_eq!(t.text, "");
}

#[test]
fn operations_test_luk() {
    let mut t = Term::make_text("ti");
    luk(&mut t);
    assert_eq!(t.text, "");
    assert!(t.has_tag(T::Luk));
}

#[test]
fn operations_test_slu() {
    let mut t = Term::make_text("ti");
    slu(&mut t);
    assert_eq!(t.text, "");
    assert!(t.has_tag(T::Slu));
}

#[test]
fn operations_test_lup() {
    let mut t = Term::make_text("ti");
    lup(&mut t);
    assert_eq!(t.text, "");
    assert!(t.has_tag(T::Lup));
}

#[test]
fn operations_on_empty_text_change_nothing() {
    let mut t = Term::make_text("");
    adi(&mut t, "g");
    antya(&mut t, "g");
    upadha(&mut t, "g");
    assert_eq!(t.text, "");
}
