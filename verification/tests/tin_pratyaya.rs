use vidyut_prakriya::constants::{La, Purusha, Tag, Vacana};
use vidyut_prakriya::prakriya::{Config, Prakriya, RuleChoice};
use vidyut_prakriya::term::Term;
use vidyut_prakriya::tin_pratyaya::{
    adesha, maybe_do_lin_siddhi, maybe_do_lot_and_nit_siddhi, maybe_do_lot_only_siddhi,
    maybe_do_lut_siddhi, maybe_replace_jhi_with_jus, siddhi,
};

fn dhatu(u: &str, text: &str) -> Term {
    let mut t = Term::make_dhatu(u, 1, 1);
    t.text = text.to_string();
    t.add_tag(Tag::Dhatu);
    t
}

fn tin(u: &str, text: &str, la: &str, tags: &[Tag]) -> Term {
    let mut t = Term::make_upadesha(u);
    t.text = text.to_string();
    t.lakshana.push(la.to_string());
    t.add_tags(&[Tag::Pratyaya, Tag::Tin, Tag::Vibhakti]);
    for tag in tags {
        t.add_tag(*tag);
    }
    t
}

fn make(choices: Vec<RuleChoice>, tags: &[Tag], terms: Vec<Term>) -> Prakriya {
    let mut p = Prakriya::with_config(Config {
        rule_choices: choices,
        log_steps: true,
    });
    for tag in tags {
        p.add_tag(*tag);
    }
    for t in terms {
        p.push(t);
    }
    p
}

fn texts(p: &Prakriya) -> Vec<String> {
    p.terms().iter().map(|t| t.text.clone()).collect()
}

#[test]
fn lakara_becomes_tin() {
    let mut la = Term::make_upadesha("la~N");
    la.text = "l".to_string();
    la.add_tags(&[Tag::Pratyaya, Tag::Nit]);
    let mut p = make(vec![], &[Tag::Parasmaipada], vec![dhatu("BU", "BU"), la.clone()]);
    adesha(&mut p, Purusha::Prathama, Vacana::Eka);
    let t = &p.terms()[1];
    assert_eq!(t.text, "ti");
    assert_eq!(t.u, Some("tip".to_string()));
    assert_eq!(t.lakshana, vec!["la~N".to_string()]);
    assert!(t.all(&[
        Tag::Vibhakti,
        Tag::Tin,
        Tag::Prathama,
        Tag::Ekavacana,
        Tag::Parasmaipada,
        Tag::pit
    ]));
    assert!(!t.has_tag(Tag::Nit));

    let mut p = make(vec![], &[Tag::Atmanepada], vec![dhatu("eDa~\\", "eD"), la]);
    adesha(&mut p, Purusha::Uttama, Vacana::Bahu);
    let t = &p.terms()[1];
    assert_eq!(t.text, "mahi");
    assert!(t.all(&[Tag::Uttama, Tag::Bahuvacana, Tag::Atmanepada]));
    assert!(!t.has_tag(Tag::Nit));
}

#[test]
fn lut_endings() {
    let prathama = |v: Tag| tin("tip", "ti", "lu~w", &[Tag::Parasmaipada, Tag::Prathama, v]);
    for (v, text) in [(Tag::Ekavacana, "A"), (Tag::Dvivacana, "rO"), (Tag::Bahuvacana, "ras")] {
        let mut p = make(vec![], &[], vec![dhatu("BU", "Bavi"), prathama(v)]);
        assert!(maybe_do_lut_siddhi(&mut p, 1, La::Lut));
        assert_eq!(p.terms()[1].text, text);
    }
    let mut p = make(vec![], &[], vec![dhatu("BU", "Bavi"), prathama(Tag::Ekavacana)]);
    assert!(!maybe_do_lut_siddhi(&mut p, 1, La::Lrt));
    assert_eq!(p.terms()[1].text, "ti");
}

#[test]
fn jhi_becomes_jus() {
    let jhi = || tin("Ji", "Ji", "li~N", &[Tag::Parasmaipada]);
    let mut p = make(vec![], &[], vec![dhatu("BU", "BU"), jhi()]);
    maybe_replace_jhi_with_jus(&mut p, 1, La::VidhiLin);
    assert_eq!(p.terms()[1].text, "us");
    assert_eq!(p.terms()[1].u, Some("jus".to_string()));

    // The second-to-last empty term decides 3.4.109.
    let mut sic = Term::make_upadesha("si~c");
    sic.text = String::new();
    let mut empty = Term::make_upadesha("Sap");
    empty.text = String::new();
    let mut p = make(vec![], &[], vec![sic, dhatu("BU", "BU"), empty, jhi()]);
    maybe_replace_jhi_with_jus(&mut p, 3, La::Lan);
    assert_eq!(p.terms()[3].text, "us");

    let mut p = make(vec![], &[], vec![dhatu("BU", "BU"), jhi()]);
    maybe_replace_jhi_with_jus(&mut p, 1, La::Lat);
    assert_eq!(p.terms()[1].text, "Ji");
}

#[test]
fn lot_and_nit_endings() {
    let mut p = make(vec![], &[], vec![dhatu("BU", "Bava"), tin("tas", "tas", "la~N", &[Tag::Parasmaipada])]);
    maybe_do_lot_and_nit_siddhi(&mut p, La::Lan);
    assert_eq!(p.terms()[1].text, "tAm");

    let mut p = make(
        vec![],
        &[],
        vec![dhatu("BU", "Bava"), tin("mas", "mas", "la~N", &[Tag::Parasmaipada, Tag::Uttama])],
    );
    maybe_do_lot_and_nit_siddhi(&mut p, La::Lan);
    assert_eq!(p.terms()[1].text, "ma");

    let mut p = make(vec![], &[], vec![dhatu("BU", "Bava"), tin("tip", "ti", "la~N", &[Tag::Parasmaipada])]);
    maybe_do_lot_and_nit_siddhi(&mut p, La::Lan);
    assert_eq!(p.terms()[1].text, "t");

    let mut p = make(vec![], &[], vec![dhatu("BU", "Bava"), tin("tip", "ti", "lo~w", &[Tag::Parasmaipada])]);
    maybe_do_lot_and_nit_siddhi(&mut p, La::Lot);
    assert_eq!(p.terms()[1].text, "ti");

    let mut p = make(vec![], &[], vec![dhatu("BU", "Bava"), tin("tas", "tas", "la~w", &[Tag::Parasmaipada])]);
    maybe_do_lot_and_nit_siddhi(&mut p, La::Lat);
    assert_eq!(p.terms()[1].text, "tas");
}

#[test]
fn lot_endings() {
    let cases = [
        ("sip", "si", &[Tag::Parasmaipada, Tag::pit][..], "hi"),
        ("tip", "ti", &[Tag::Parasmaipada][..], "tu"),
        ("ta", "te", &[Tag::Atmanepada][..], "tAm"),
        ("TAs", "se", &[Tag::Atmanepada][..], "sva"),
        ("Dvam", "Dve", &[Tag::Atmanepada][..], "Dvam"),
    ];
    for (u, text, tags, expected) in cases {
        let mut p = make(vec![], &[], vec![dhatu("BU", "Bava"), tin(u, text, "lo~w", tags)]);
        assert!(maybe_do_lot_only_siddhi(&mut p, 1).is_ok());
        assert_eq!(p.terms()[1].text, expected, "{u}");
    }

    let mut p = make(vec![], &[], vec![dhatu("BU", "Bava"), tin("sip", "si", "lo~w", &[Tag::pit])]);
    maybe_do_lot_only_siddhi(&mut p, 1).unwrap();
    assert_eq!(p.terms()[1].u, Some("hi".to_string()));
    assert!(!p.terms()[1].has_tag(Tag::pit));

    let mut p = make(
        vec![],
        &[],
        vec![dhatu("BU", "Bava"), tin("mip", "mi", "lo~w", &[Tag::Parasmaipada, Tag::Uttama])],
    );
    maybe_do_lot_only_siddhi(&mut p, 1).unwrap();
    assert_eq!(texts(&p), vec!["Bava", "A", "ni"]);
    assert!(p.terms()[1].has_tag(Tag::Agama));
    assert!(p.terms()[2].has_tag(Tag::Pit));

    let mut p = make(vec![], &[], vec![dhatu("BU", "Bava"), tin("tip", "ti", "la~w", &[])]);
    maybe_do_lot_only_siddhi(&mut p, 1).unwrap();
    assert_eq!(texts(&p), vec!["Bava", "ti"]);
}

#[test]
fn lin_endings() {
    let mut p = make(vec![], &[], vec![dhatu("BU", "BU"), tin("tip", "ti", "li~N", &[Tag::Parasmaipada])]);
    maybe_do_lin_siddhi(&mut p, 1, La::AshirLin).unwrap();
    assert_eq!(texts(&p), vec!["BU", "yAs", "sti"]);
    assert!(p.terms()[2].has_tag(Tag::kit));
    assert!(p.terms()[1].has_tag(Tag::Agama));

    let mut p = make(vec![], &[], vec![dhatu("BU", "Bava"), tin("tip", "ti", "li~N", &[Tag::Parasmaipada])]);
    maybe_do_lin_siddhi(&mut p, 1, La::VidhiLin).unwrap();
    assert!(p.terms()[2].has_tag(Tag::Nit));

    let mut p = make(vec![], &[], vec![dhatu("eDa~\\", "eD"), tin("Ja", "Ja", "li~N", &[Tag::Atmanepada])]);
    maybe_do_lin_siddhi(&mut p, 1, La::VidhiLin).unwrap();
    assert_eq!(texts(&p), vec!["eD", "sIy", "ran"]);

    let mut p = make(vec![], &[], vec![dhatu("eDa~\\", "eD"), tin("iw", "i", "li~N", &[Tag::Atmanepada])]);
    maybe_do_lin_siddhi(&mut p, 1, La::VidhiLin).unwrap();
    assert_eq!(texts(&p), vec!["eD", "sIy", "a"]);

    let mut p = make(vec![], &[], vec![dhatu("BU", "BU"), tin("tip", "ti", "la~w", &[Tag::Parasmaipada])]);
    maybe_do_lin_siddhi(&mut p, 1, La::Lat).unwrap();
    assert_eq!(texts(&p), vec!["BU", "ti"]);
}

#[test]
fn siddhi_of_lit_and_lat() {
    let mut p = make(vec![], &[], vec![dhatu("BU", "BU"), tin("tip", "ti", "li~w", &[Tag::Parasmaipada])]);
    siddhi(&mut p, La::Lit).unwrap();
    assert_eq!(p.terms()[1].text, "a");
    assert_eq!(p.terms()[1].u, Some("Ral".to_string()));

    let mut p = make(vec![], &[], vec![dhatu("eDa~\\", "eD"), tin("ta", "ta", "li~w", &[Tag::Atmanepada])]);
    siddhi(&mut p, La::Lit).unwrap();
    assert_eq!(p.terms()[1].text, "e");
    assert!(!p.terms()[1].has_tag(Tag::Sit));

    let mut p = make(vec![], &[], vec![dhatu("eDa~\\", "eD"), tin("ta", "ta", "la~w", &[Tag::Atmanepada])]);
    siddhi(&mut p, La::Lat).unwrap();
    assert_eq!(p.terms()[1].text, "te");

    // 3.4.84 looks at the text of the ending, so `tip` (text `ti`) stays.
    let mut p = make(vec![], &[], vec![dhatu("brUY", "brU"), tin("tip", "ti", "la~w", &[Tag::Parasmaipada])]);
    siddhi(&mut p, La::Lat).unwrap();
    assert_eq!(texts(&p), vec!["brU", "ti"]);

    let mut p = make(vec![], &[], vec![dhatu("brUY", "brU"), tin("tas", "tas", "la~w", &[Tag::Parasmaipada])]);
    siddhi(&mut p, La::Lat).unwrap();
    assert_eq!(texts(&p), vec!["Ah", "atus"]);

    let mut p = make(
        vec![RuleChoice::Decline("3.4.84")],
        &[],
        vec![dhatu("brUY", "brU"), tin("tas", "tas", "la~w", &[Tag::Parasmaipada])],
    );
    siddhi(&mut p, La::Lat).unwrap();
    assert_eq!(texts(&p), vec!["brU", "tas"]);

    let mut p = make(vec![], &[], vec![tin("tip", "ti", "la~w", &[Tag::Parasmaipada])]);
    siddhi(&mut p, La::Lat).unwrap();
    assert_eq!(texts(&p), vec!["ti"]);
}

#[test]
fn siddhi_of_lot_and_lut() {
    let mut p = make(vec![], &[], vec![dhatu("BU", "Bava"), tin("tip", "ti", "lo~w", &[Tag::Parasmaipada])]);
    siddhi(&mut p, La::Lot).unwrap();
    assert_eq!(p.terms()[1].text, "tu");

    let mut p = make(
        vec![],
        &[],
        vec![dhatu("BU", "Bavi"), tin("tip", "ti", "lu~w", &[Tag::Parasmaipada, Tag::Prathama, Tag::Ekavacana])],
    );
    siddhi(&mut p, La::Lut).unwrap();
    assert_eq!(p.terms()[1].text, "A");

    let mut p = make(
        vec![],
        &[],
        vec![dhatu("BU", "Bava"), tin("Ji", "Ji", "li~N", &[Tag::Parasmaipada])],
    );
    siddhi(&mut p, La::VidhiLin).unwrap();
    assert_eq!(texts(&p), vec!["Bava", "yAs", "us"]);
}
