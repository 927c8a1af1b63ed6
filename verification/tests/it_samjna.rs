use vidyut_prakriya::constants::Tag as T;
use vidyut_prakriya::it_samjna::run;
use vidyut_prakriya::operators;
use vidyut_prakriya::prakriya::{Config, Prakriya};
use vidyut_prakriya::term::Term;

fn check(t: Term) -> Term {
    let mut p = Prakriya::new();
    p.push(t);
    run(&mut p, 0).unwrap();
    p.get(0).unwrap().clone()
}

fn logging() -> Prakriya {
    Prakriya::with_config(Config {
        rule_choices: vec![],
        log_steps: true,
    })
}

fn rules(p: &Prakriya) -> Vec<&'static str> {
    p.history().iter().map(|s| s.rule).collect()
}

#[test]
fn test_no_upadesha() {
    let t = check(Term::make_text("buD"));
    assert_eq!(t.text, "buD");
}

#[test]
fn test_common() {
    let tests = [
        ("i", "i", vec![]),
        ("df\\Si~r", "dfS", vec![T::irit, T::Anudatta]),
        ("ga\\mx~", "gam", vec![T::xdit]),
        ("vftu~\\", "vft", vec![T::udit, T::anudattet]),
        ("qukfY", "kf", vec![T::qvit, T::Yit]),
        (
            "qupa\\ca~^z",
            "pac",
            vec![T::qvit, T::Anudatta, T::adit, T::svaritet, T::zit],
        ),
    ];

    for (raw, text, tags) in tests {
        let t = check(Term::make_upadesha(raw));
        assert_eq!(t.text, text);
        assert!(t.all(&tags));
    }
}

#[test]
fn test_vibhakti() {
    let tests = [
        ("su~", "s", vec![T::udit]),
        ("tip", "ti", vec![T::pit]),
        ("t", "t", vec![]),
        ("n", "n", vec![]),
        ("mas", "mas", vec![]),
        ("AtAm", "AtAm", vec![]),
    ];

    for (raw, text, tags) in tests {
        let mut start = Term::make_upadesha(raw);
        start.add_tag(T::Vibhakti);
        let t = check(start);

        assert_eq!(t.text, text);
        assert!(t.all(&tags));
    }
}

#[test]
fn test_pratyaya() {
    let tests = [
        ("kta", "ta", vec![T::Pratyaya, T::kit]),
        ("Ric", "i", vec![T::Pratyaya, T::Rit, T::cit]),
        ("la~w", "l", vec![T::Pratyaya, T::adit, T::wit]),
    ];
    for (raw, text, tags) in tests {
        let mut start = Term::make_upadesha(raw);
        start.add_tag(T::Pratyaya);
        let t = check(start);

        assert_eq!(t.text, text, "{text}");
        assert!(t.all(&tags), "Missing one or more of `{tags:?}`");
    }
}

#[test]
fn it_samjna_records_its_rules() {
    let mut p = logging();
    p.push(Term::make_upadesha("tip"));
    run(&mut p, 0).unwrap();
    assert_eq!(rules(&p), vec!["1.3.2", "1.3.3", "1.3.5", "1.3.9"]);

    let mut p = logging();
    let mut t = Term::make_upadesha("mas");
    t.add_tag(T::Vibhakti);
    p.push(t);
    run(&mut p, 0).unwrap();
    assert_eq!(rules(&p), vec!["1.3.2", "1.3.4", "1.3.5"]);
}

#[test]
fn it_samjna_keeps_chjwq_and_lakaras() {
    let mut t = Term::make_upadesha("Ca");
    t.add_tag(T::Pratyaya);
    let t = check(t);
    assert_eq!(t.text, "Ca");
    assert!(!t.has_tag(T::Cit));

    let mut t = Term::make_upadesha("li~N");
    t.add_tag(T::Pratyaya);
    let t = check(t);
    assert_eq!(t.text, "l");
    assert!(t.all(&[T::idit, T::Nit]));

    let mut t = Term::make_upadesha("Ga");
    t.add_tag(T::Pratyaya);
    t.add_tag(T::Taddhita);
    let t = check(t);
    assert_eq!(t.text, "Ga");
}

#[test]
fn it_samjna_strips_prefixes_in_turn() {
    let t = check(Term::make_upadesha("YiBI\\"));
    assert_eq!(t.text, "BI");
    assert!(t.all(&[T::YIt, T::Anudatta]));

    let t = check(Term::make_upadesha("wuvepf~\\"));
    assert_eq!(t.text, "vep");
    assert!(t.all(&[T::wvit, T::fdit, T::anudattet]));
}

#[test]
fn it_samjna_fails_without_a_sound_to_remove() {
    let mut p = Prakriya::new();
    let mut t = Term::make_upadesha("k");
    t.text = String::new();
    p.push(t);
    assert!(run(&mut p, 0).is_err());

    let mut p = Prakriya::new();
    let mut t = Term::make_upadesha("zvun");
    t.add_tag(T::Pratyaya);
    t.text = "n".to_string();
    p.push(t);
    assert!(run(&mut p, 0).is_err());

    let mut p = Prakriya::new();
    assert!(run(&mut p, 3).is_ok());
}

#[test]
fn upadesha_replaces_and_runs_it_samjna() {
    let mut p = Prakriya::new();
    let mut t = Term::make_upadesha("a\\da~");
    t.text = "ad".to_string();
    t.add_tag(T::Dhatu);
    p.push(t);
    operators::upadesha(&mut p, 0, "Gasx~");
    let t = p.get(0).unwrap();
    assert_eq!(t.text, "Gas");
    assert_eq!(t.u, Some("Gasx~".to_string()));
    assert_eq!(t.lakshana, vec!["a\\da~".to_string()]);
    assert!(t.all(&[T::Dhatu, T::xdit]));

    operators::upadesha(&mut p, 5, "BU");
    assert_eq!(p.terms().len(), 1);
}

#[test]
fn adesha_records_its_rule_first() {
    let mut p = logging();
    let mut t = Term::make_upadesha("Ji");
    t.text = "Ji".to_string();
    t.add_tags(&[T::Pratyaya, T::Vibhakti]);
    p.push(t);
    operators::adesha("3.4.108", &mut p, 0, "jus");
    let t = p.get(0).unwrap();
    assert_eq!(t.text, "us");
    assert!(t.has_tag(T::jit));
    assert_eq!(rules(&p)[0], "3.4.108");

    let mut p = logging();
    p.push(Term::make_upadesha("ta"));
    operators::upadesha_v2("3.4.78", &mut p, 0, "tip");
    assert_eq!(p.get(0).unwrap().text, "ti");
    assert_eq!(rules(&p)[0], "3.4.78");
}

#[test]
fn append_agama_adds_a_clean_agama() {
    let mut p = logging();
    p.push(Term::make_upadesha("BU"));
    p.push(Term::make_upadesha("ta"));
    operators::append_agama("6.4.88", &mut p, 0, "vu~k");
    let texts: Vec<String> = p.terms().iter().map(|t| t.text.clone()).collect();
    assert_eq!(texts, vec!["BU", "v", "ta"]);
    let agama = p.get(1).unwrap();
    assert!(agama.all(&[T::Agama, T::udit, T::kit]));
    assert_eq!(rules(&p)[0], "6.4.88");

    let mut p = logging();
    p.push(Term::make_upadesha("BU"));
    operators::insert_agama_before(&mut p, 0, "aw");
    operators::insert_agama_after(&mut p, 1, "iw");
    let texts: Vec<String> = p.terms().iter().map(|t| t.text.clone()).collect();
    assert_eq!(texts, vec!["aw", "BU", "iw"]);
}

#[test]
fn upadesha_yatha_follows_the_lists() {
    let mut p = Prakriya::new();
    let mut t = Term::make_upadesha("Ja");
    t.add_tag(T::Pratyaya);
    p.push(t);
    operators::upadesha_yatha(&mut p, 0, &["ta", "Ja"], &["eS", "irec"]);
    let t = p.get(0).unwrap();
    assert_eq!(t.text, "ire");
    assert!(t.has_tag(T::cit));
    assert_eq!(t.lakshana, vec!["Ja".to_string()]);

    let mut p = Prakriya::new();
    p.push(Term::make_text("x"));
    operators::upadesha_yatha(&mut p, 0, &["ta"], &["eS"]);
    assert_eq!(p.get(0).unwrap().text, "x");
}
