use vidyut_prakriya::filters::{is_guru, is_laghu};
use vidyut_prakriya::term::Term;

#[test]
fn test_is_laghu() {
    let text_is_laghu = |s| {
        let t = Term::make_text(s);
        is_laghu(&t)
    };
    assert!(text_is_laghu("i"));
    assert!(text_is_laghu("vid"));
    assert!(!text_is_laghu("BU"));
    assert!(!text_is_laghu("uC"));
    assert!(!text_is_laghu("IS"));
}

#[test]
fn guru_is_the_opposite_of_laghu() {
    for s in ["i", "vid", "BU", "uC", "IS", "kram"] {
        let t = Term::make_text(s);
        assert_eq!(is_guru(&t), !is_laghu(&t));
    }
}
