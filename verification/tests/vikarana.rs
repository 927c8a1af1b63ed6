use vidyut_prakriya::constants::Tag;
use vidyut_prakriya::prakriya::{Config, Prakriya, RuleChoice};
use vidyut_prakriya::term::Term;
use vidyut_prakriya::vikarana::{
    add_aam, add_kr_after_am_pratyaya, add_sarvadhatuka_vikarana, add_vikarana, has_cli,
    maybe_add_am_pratyaya_for_lit, maybe_add_am_pratyaya_for_lot, maybe_replace_cli_with_an,
    maybe_replace_cli_with_can, maybe_replace_cli_with_cin, maybe_replace_cli_with_sic,
    maybe_sic_lopa_before_parasmaipada,
};

fn term(u: &str, text: &str, tags: &[Tag]) -> Term {
    let mut t = Term::make_upadesha(u);
    t.text = text.to_string();
    for tag in tags {
        t.add_tag(*tag);
    }
    t
}

fn dhatu(u: &str, text: &str, gana: i32) -> Term {
    let mut t = Term::make_dhatu(u, gana, 1);
    t.text = text.to_string();
    t.add_tag(Tag::Dhatu);
    t
}

fn tip() -> Term {
    term("tip", "ti", &[Tag::Pratyaya, Tag::Tin, Tag::Parasmaipada])
}

fn ta() -> Term {
    term("ta", "ta", &[Tag::Pratyaya, Tag::Tin, Tag::Atmanepada])
}

fn cli() -> Term {
    term("cli~", "cli~", &[Tag::Pratyaya, Tag::Vikarana])
}

fn with_choices(choices: Vec<RuleChoice>, tags: &[Tag], terms: Vec<Term>) -> Prakriya {
    let mut p = Prakriya::with_config(Config {
        rule_choices: choices,
        log_steps: true,
    });
    for tag in tags {
        p.add_tag(*tag);
    }
    for t in terms {
        p.push(t);
    }
    p
}

fn kartari(terms: Vec<Term>) -> Prakriya {
    with_choices(vec![], &[Tag::Kartari], terms)
}

fn texts(p: &Prakriya) -> Vec<String> {
    p.terms().iter().map(|t| t.text.clone()).collect()
}

fn upadeshas(p: &Prakriya) -> Vec<String> {
    p.terms()
        .iter()
        .map(|t| t.u.clone().unwrap_or_default())
        .collect()
}

#[test]
fn vikarana_goes_after_the_last_dhatu() {
    let mut p = kartari(vec![dhatu("BU", "BU", 1), tip()]);
    add_vikarana(&mut p, "Sap");
    assert_eq!(texts(&p), vec!["BU", "Sap", "ti"]);
    let v = &p.terms()[1];
    assert!(v.has_tag(Tag::Pratyaya));
    assert!(v.has_tag(Tag::Vikarana));
    assert_eq!(v.u, Some("Sap".to_string()));
}

#[test]
fn vikarana_needs_a_dhatu() {
    let mut p = kartari(vec![tip()]);
    add_vikarana(&mut p, "Sap");
    assert_eq!(texts(&p), vec!["ti"]);

    let mut p = kartari(vec![tip()]);
    add_aam(&mut p);
    assert_eq!(texts(&p), vec!["ti"]);
}

#[test]
fn aam_is_a_pratyaya_but_no_vikarana() {
    let mut p = kartari(vec![dhatu("kAsf~\\", "kAs", 1), tip()]);
    add_aam(&mut p);
    assert_eq!(texts(&p), vec!["kAs", "Am", "ti"]);
    assert!(p.terms()[1].has_tag(Tag::Pratyaya));
    assert!(!p.terms()[1].has_tag(Tag::Vikarana));
}

#[test]
fn cli_is_found_after_the_dhatu() {
    let p = kartari(vec![dhatu("BU", "BU", 1), cli(), tip()]);
    assert!(has_cli(&p, 0));
    assert!(!has_cli(&p, 1));
    assert!(!has_cli(&p, 5));
}

#[test]
fn cli_becomes_can() {
    let mut p = kartari(vec![dhatu("SriY", "Sri", 1), cli(), tip()]);
    maybe_replace_cli_with_can(&mut p, 0);
    assert_eq!(upadeshas(&p)[1], "caN");
    assert_eq!(texts(&p)[1], "caN");
    assert_eq!(p.terms()[1].lakshana, vec!["cli~".to_string()]);

    // Only in the active voice for Sri.
    let mut p = with_choices(vec![], &[], vec![dhatu("SriY", "Sri", 1), cli(), tip()]);
    maybe_replace_cli_with_can(&mut p, 0);
    assert_eq!(texts(&p)[1], "cli~");

    let mut p = with_choices(vec![], &[], vec![dhatu("kamu~\\", "kam", 1), cli(), ta()]);
    maybe_replace_cli_with_can(&mut p, 0);
    assert_eq!(texts(&p)[1], "caN");

    let mut p = with_choices(
        vec![RuleChoice::Decline("3.1.49")],
        &[Tag::Kartari],
        vec![dhatu("De\\w", "De", 1), cli(), tip()],
    );
    maybe_replace_cli_with_can(&mut p, 0);
    assert_eq!(texts(&p)[1], "cli~");
}

#[test]
fn cli_becomes_an() {
    let mut p = kartari(vec![dhatu("va\\ca~", "vac", 2), cli(), tip()]);
    maybe_replace_cli_with_an(&mut p, 0);
    assert_eq!(texts(&p), vec!["vac", "aN", "ti"]);

    let mut p = kartari(vec![dhatu("sf\\", "sf", 1), cli(), tip()]);
    maybe_replace_cli_with_an(&mut p, 0);
    assert_eq!(texts(&p)[1], "aN");

    // 3.1.54 blocks 3.1.53 before an atmanepada ending.
    let mut p = kartari(vec![dhatu("li\\pa~^", "lip", 6), cli(), ta()]);
    maybe_replace_cli_with_an(&mut p, 0);
    assert_eq!(texts(&p)[1], "cli~");

    let mut p = with_choices(
        vec![RuleChoice::Decline("3.1.54")],
        &[Tag::Kartari],
        vec![dhatu("li\\pa~^", "lip", 6), cli(), ta()],
    );
    maybe_replace_cli_with_an(&mut p, 0);
    assert_eq!(texts(&p)[1], "aN");

    let mut p = kartari(vec![dhatu("BU", "BU", 1), cli(), tip()]);
    maybe_replace_cli_with_an(&mut p, 0);
    assert_eq!(texts(&p)[1], "cli~");
}

#[test]
fn cli_becomes_cin_or_sic() {
    let mut p = kartari(vec![dhatu("pa\\da~\\", "pad", 4), cli(), ta()]);
    maybe_replace_cli_with_cin(&mut p, 0);
    assert_eq!(texts(&p)[1], "ciR");

    let mut p = kartari(vec![dhatu("pa\\da~\\", "pad", 4), cli(), tip()]);
    maybe_replace_cli_with_cin(&mut p, 0);
    assert_eq!(texts(&p)[1], "cli~");
    maybe_replace_cli_with_sic(&mut p, 0);
    assert_eq!(texts(&p)[1], "si~c");
    assert_eq!(upadeshas(&p)[1], "si~c");

    // Without cli, nothing changes.
    maybe_replace_cli_with_sic(&mut p, 0);
    assert_eq!(texts(&p)[1], "si~c");
}

#[test]
fn kr_goes_before_the_ending() {
    let mut p = kartari(vec![dhatu("kAsf~\\", "kAs", 1), term("Am", "Am", &[Tag::Pratyaya]), tip()]);
    add_kr_after_am_pratyaya(&mut p);
    assert_eq!(texts(&p), vec!["kAs", "Am", "kf", "ti"]);
    let kf = &p.terms()[2];
    assert!(kf.has_tag(Tag::Dhatu));
    assert_eq!(kf.u, Some("qukf\\Y".to_string()));
    assert_eq!(kf.gana, Some(8));
}

#[test]
fn am_for_lit() {
    let mut p = kartari(vec![dhatu("kAsf~\\", "kAs", 1), tip()]);
    maybe_add_am_pratyaya_for_lit(&mut p);
    assert_eq!(texts(&p), vec!["kAs", "Am", "kf", "ti"]);

    let mut p = kartari(vec![dhatu("cakAsf~", "cakAs", 2), tip()]);
    maybe_add_am_pratyaya_for_lit(&mut p);
    assert_eq!(texts(&p), vec!["cakAs", "Am", "kf", "ti"]);

    let mut p = kartari(vec![dhatu("IkzA~\\", "Ikz", 1), tip()]);
    maybe_add_am_pratyaya_for_lit(&mut p);
    assert_eq!(texts(&p), vec!["Ikz", "Am", "kf", "ti"]);

    let mut p = kartari(vec![dhatu("BU", "BU", 1), tip()]);
    maybe_add_am_pratyaya_for_lit(&mut p);
    assert_eq!(texts(&p), vec!["BU", "ti"]);
}

#[test]
fn am_for_lit_is_optional_for_uz_and_jagr() {
    let mut p = with_choices(
        vec![RuleChoice::Decline("3.1.38")],
        &[Tag::Kartari],
        vec![dhatu("jAgf", "jAgf", 2), tip()],
    );
    maybe_add_am_pratyaya_for_lit(&mut p);
    assert_eq!(texts(&p), vec!["jAgf", "Am", "ti"]);

    let mut p = kartari(vec![dhatu("vida~", "vid", 2), tip()]);
    maybe_add_am_pratyaya_for_lit(&mut p);
    assert_eq!(texts(&p), vec!["vid", "Am", "Am", "kf", "ti"]);
    assert!(p.terms()[0].has_tag(Tag::FlagGunaApavada));
}

#[test]
fn sluvat_am_for_bhi() {
    let mut p = kartari(vec![dhatu("YiBI\\", "BI", 3), tip()]);
    maybe_add_am_pratyaya_for_lit(&mut p);
    assert_eq!(texts(&p), vec!["BI", "Am", "kf", "ti"]);
    assert!(p.terms()[1].has_tag(Tag::Slu));

    let mut p = with_choices(
        vec![RuleChoice::Decline("3.1.39")],
        &[Tag::Kartari],
        vec![dhatu("YiBI\\", "BI", 3), tip()],
    );
    maybe_add_am_pratyaya_for_lit(&mut p);
    assert_eq!(texts(&p), vec!["BI", "ti"]);
}

#[test]
fn am_for_lot_of_vid() {
    let mut lot = tip();
    lot.lakshana.push("lo~w".to_string());
    let mut p = kartari(vec![dhatu("vida~", "vid", 2), lot.clone()]);
    maybe_add_am_pratyaya_for_lot(&mut p);
    assert_eq!(texts(&p), vec!["vid", "Am", "kf", "ti"]);
    assert!(p.terms()[0].has_tag(Tag::FlagGunaApavada));

    let mut p = kartari(vec![dhatu("vida~", "vid", 2), tip()]);
    maybe_add_am_pratyaya_for_lot(&mut p);
    assert_eq!(texts(&p), vec!["vid", "ti"]);

    let mut p = with_choices(
        vec![RuleChoice::Decline("3.1.41")],
        &[Tag::Kartari],
        vec![dhatu("vida~", "vid", 2), lot],
    );
    maybe_add_am_pratyaya_for_lot(&mut p);
    assert_eq!(texts(&p), vec!["vid", "ti"]);
}

fn vikarana_of(d: Term, tags: &[Tag], choices: Vec<RuleChoice>) -> Vec<String> {
    let mut p = with_choices(choices, tags, vec![d, tip()]);
    add_sarvadhatuka_vikarana(&mut p);
    texts(&p)
}

#[test]
fn sarvadhatuka_vikarana_by_gana() {
    let k = &[Tag::Kartari];
    assert_eq!(vikarana_of(dhatu("BU", "BU", 1), k, vec![]), vec!["BU", "Sap", "ti"]);
    assert_eq!(vikarana_of(dhatu("divu~", "div", 4), k, vec![]), vec!["div", "Syan", "ti"]);
    assert_eq!(vikarana_of(dhatu("zu\\Y", "su", 5), k, vec![]), vec!["su", "Snu", "ti"]);
    assert_eq!(vikarana_of(dhatu("tu\\da~^", "tud", 6), k, vec![]), vec!["tud", "Sa", "ti"]);
    assert_eq!(vikarana_of(dhatu("ta\\nu~^", "tan", 8), k, vec![]), vec!["tan", "u", "ti"]);
    assert_eq!(vikarana_of(dhatu("qukf\\Y", "kf", 8), k, vec![]), vec!["kf", "u", "ti"]);
    assert_eq!(vikarana_of(dhatu("qukrI\\Y", "krI", 9), k, vec![]), vec!["krI", "SnA", "ti"]);
}

#[test]
fn sarvadhatuka_vikarana_special_dhatus() {
    let k = &[Tag::Kartari];
    assert_eq!(vikarana_of(dhatu("Sru\\", "Sru", 1), k, vec![]), vec!["Sf", "Snu", "ti"]);
    assert_eq!(vikarana_of(dhatu("Divi~", "Dinv", 1), k, vec![]), vec!["Dina", "u", "ti"]);

    let mut p = kartari(vec![dhatu("ru\\Di~^r", "ruD", 7), tip()]);
    add_sarvadhatuka_vikarana(&mut p);
    assert_eq!(texts(&p), vec!["runaD", "ti"]);
    assert!(p.terms()[0].has_tag(Tag::Snam));
}

#[test]
fn sarvadhatuka_vikarana_outside_kartari() {
    assert_eq!(vikarana_of(dhatu("BU", "BU", 1), &[Tag::Bhave], vec![]), vec!["BU", "yak", "ti"]);
    assert_eq!(vikarana_of(dhatu("divu~", "div", 4), &[], vec![]), vec!["div", "yak", "ti"]);
}

#[test]
fn sarvadhatuka_vikarana_optional() {
    let k = &[Tag::Kartari];
    assert_eq!(vikarana_of(dhatu("Bramu~", "Bram", 1), k, vec![]), vec!["Bram", "Syan", "ti"]);
    assert_eq!(
        vikarana_of(dhatu("Bramu~", "Bram", 1), k, vec![RuleChoice::Decline("3.1.70")]),
        vec!["Bram", "Sap", "ti"]
    );
    // A gana-4 dhatu that declines 3.1.70 does not take Syan by 3.1.69 either.
    assert_eq!(
        vikarana_of(dhatu("Bramu~", "Bram", 4), k, vec![RuleChoice::Decline("3.1.70")]),
        vec!["Bram", "Sap", "ti"]
    );
    assert_eq!(vikarana_of(dhatu("yasu~", "yas", 4), k, vec![]), vec!["yas", "Syan", "ti"]);
    assert_eq!(
        vikarana_of(dhatu("yasu~", "yas", 4), k, vec![RuleChoice::Decline("3.1.71")]),
        vec!["yas", "Syan", "ti"]
    );
    assert_eq!(
        vikarana_of(dhatu("yasu~", "yas", 1), k, vec![RuleChoice::Decline("3.1.71")]),
        vec!["yas", "Sap", "ti"]
    );
    assert_eq!(vikarana_of(dhatu("akzU~", "akz", 1), k, vec![]), vec!["akz", "Snu", "ti"]);
    assert_eq!(
        vikarana_of(dhatu("sta\\nBu~", "stanB", 9), k, vec![RuleChoice::Decline("3.1.82")]),
        vec!["stanB", "SnA", "ti"]
    );
}

#[test]
fn sarvadhatuka_vikarana_needs_a_dhatu() {
    let mut p = kartari(vec![tip()]);
    add_sarvadhatuka_vikarana(&mut p);
    assert_eq!(texts(&p), vec!["ti"]);
}

fn sic_after(d: Term, ending: Term, choices: Vec<RuleChoice>) -> Prakriya {
    let sic = term("si~c", "s", &[Tag::Pratyaya, Tag::Vikarana]);
    let mut p = with_choices(choices, &[Tag::Kartari], vec![d, sic, ending]);
    maybe_sic_lopa_before_parasmaipada(&mut p, 0, 1, 2);
    p
}

#[test]
fn sic_luk_after_stha() {
    let p = sic_after(dhatu("zWA\\", "sTA", 1), tip(), vec![]);
    assert_eq!(texts(&p), vec!["sTA", "", "ti"]);
    assert!(p.terms()[1].has_tag(Tag::Luk));

    let p = sic_after(dhatu("zWA\\", "sTA", 1), ta(), vec![]);
    assert_eq!(texts(&p), vec!["sTA", "s", "ta"]);

    let p = sic_after(dhatu("ku\\", "ku", 1), tip(), vec![]);
    assert_eq!(texts(&p), vec!["ku", "s", "ti"]);
}

#[test]
fn sic_luk_is_optional_after_ghra_and_dhe() {
    let p = sic_after(dhatu("GrA\\", "GrA", 1), tip(), vec![]);
    assert_eq!(texts(&p), vec!["GrA", "", "ti"]);
    let p = sic_after(dhatu("GrA\\", "GrA", 1), tip(), vec![RuleChoice::Decline("2.4.78")]);
    assert_eq!(texts(&p), vec!["GrA", "s", "ti"]);

    let mut de = dhatu("De\\w", "De", 1);
    de.add_tag(Tag::Ghu);
    let p = sic_after(de.clone(), tip(), vec![]);
    assert_eq!(texts(&p), vec!["De", "s", "ti"]);
    let p = sic_after(de, tip(), vec![RuleChoice::Decline("2.4.78")]);
    assert_eq!(texts(&p), vec!["De", "", "ti"]);
}
