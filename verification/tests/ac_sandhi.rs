use vidyut_prakriya::ac_sandhi::run;
use vidyut_prakriya::prakriya::Prakriya;
use vidyut_prakriya::term::Term;

fn prakriya_of(texts: &[&str]) -> Prakriya {
    let mut p = Prakriya::new();
    for t in texts {
        p.push(Term::make_text(t));
    }
    p
}

#[test]
fn ayadi_sandhi_before_a_vowel() {
    let mut p = prakriya_of(&["Bo", "ati"]);
    assert!(run(&mut p));
    assert_eq!(p.text().as_str(), "Bavati");
}

#[test]
fn pararupa_of_a_before_a_guna_vowel() {
    let mut p = prakriya_of(&["deva", "alaya"]);
    assert!(run(&mut p));
    assert_eq!(p.text().as_str(), "devalaya");
}

#[test]
fn savarna_dirgha_sandhi() {
    let mut p = prakriya_of(&["kavi", "iSa"]);
    assert!(run(&mut p));
    assert_eq!(p.text().as_str(), "kavISa");
}

#[test]
fn guna_sandhi_after_a() {
    let mut p = prakriya_of(&["deva", "indra"]);
    assert!(run(&mut p));
    assert_eq!(p.text().as_str(), "devendra");
}

#[test]
fn vrddhi_sandhi_before_ec() {
    let mut p = prakriya_of(&["tava", "Ekya"]);
    assert!(run(&mut p));
    assert_eq!(p.text().as_str(), "tavEkya");
}

#[test]
fn yan_sandhi() {
    let mut p = prakriya_of(&["iti", "api"]);
    assert!(run(&mut p));
    assert_eq!(p.text().as_str(), "ityapi");
}

#[test]
fn text_without_vowel_meetings_is_kept() {
    let mut p = prakriya_of(&["gam"]);
    assert!(run(&mut p));
    assert_eq!(p.text().as_str(), "gam");
}

#[test]
fn no_a_is_left_before_a_vowel() {
    for texts in [
        vec!["ca", "iti", "uvAca", "eva"],
        vec!["rAma", "Agacchat", "a", "f"],
        vec!["na", "aDunA", "Ekya"],
    ] {
        let mut p = prakriya_of(&texts);
        assert!(run(&mut p));
        let t: Vec<char> = p.text().as_str().chars().collect();
        for w in t.windows(2) {
            let vowel = "aAiIuUfFxXeEoO".contains(w[1]);
            assert!(!((w[0] == 'a' || w[0] == 'A') && vowel), "{:?}", texts);
        }
    }
}
