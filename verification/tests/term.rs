use vidyut_prakriya::term::Term;

fn gam() -> Term {
    let mut t = Term::make_upadesha("gamx~");
    t.text = "gam".to_string();
    t
}

#[test]
fn test_make_upadesha() {
    let t = Term::make_upadesha("Satf");
    assert_eq!(t.u, Some("Satf".to_string()));
    assert_eq!(t.text, "Satf");
}

#[test]
fn test_sound_selectors() {
    let t = gam();

    assert_eq!(t.adi(), Some('g'));
    assert_eq!(t.upadha(), Some('a'));
    assert_eq!(t.antya(), Some('m'));

    assert_eq!(t.get(0), Some('g'));
    assert_eq!(t.get(1), Some('a'));
    assert_eq!(t.get(2), Some('m'));
    assert_eq!(t.get(3), None);
}
