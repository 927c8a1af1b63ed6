use vidyut_prakriya::tripadi::{allows_natva, stu_to_scu, stu_to_swu};

#[test]
fn test_allows_natva() {
    assert!(allows_natva("krInAti", 3));
}

#[test]
fn natva_is_blocked_by_a_dental() {
    assert!(!allows_natva("krtnAti", 3));
    assert!(!allows_natva("nAti", 0));
    assert!(!allows_natva("krInAti", 2));
}

#[test]
fn stu_substitutes() {
    assert_eq!(stu_to_scu('t'), Some("c"));
    assert_eq!(stu_to_scu('n'), Some("Y"));
    assert_eq!(stu_to_scu('k'), None);
    assert_eq!(stu_to_swu('s'), Some("z"));
    assert_eq!(stu_to_swu('D'), Some("Q"));
    assert_eq!(stu_to_swu('k'), None);
}

use vidyut_prakriya::prakriya::{Config, Prakriya, RuleChoice};
use vidyut_prakriya::term::Term;
use vidyut_prakriya::tripadi::{try_change_stu_to_parasavarna, try_jhal_adesha};

fn prakriya_of(texts: &[&str]) -> Prakriya {
    let mut p = Prakriya::new();
    for t in texts {
        p.push(Term::make_text(t));
    }
    p
}

#[test]
fn jhal_becomes_jash_before_jhash() {
    let mut p = prakriya_of(&["laB", "Da"]);
    assert!(try_jhal_adesha(&mut p));
    assert_eq!(p.text().as_str(), "labDa");
}

#[test]
fn final_jhal_becomes_car_by_default() {
    let mut p = prakriya_of(&["vAg"]);
    assert!(try_jhal_adesha(&mut p));
    assert_eq!(p.text().as_str(), "vAk");
}

#[test]
fn final_jhal_stays_where_the_rule_is_declined() {
    let config = Config {
        rule_choices: vec![RuleChoice::Decline("8.4.56")],
        log_steps: false,
    };
    let mut p = Prakriya::with_config(config);
    p.push(Term::make_text("vAg"));
    assert!(try_jhal_adesha(&mut p));
    assert_eq!(p.text().as_str(), "vAg");
}

#[test]
fn jhal_becomes_car_before_khar() {
    let mut p = prakriya_of(&["lab", "sye"]);
    assert!(try_jhal_adesha(&mut p));
    assert_eq!(p.text().as_str(), "lapsye");
}

#[test]
fn stu_becomes_scu() {
    let mut p = prakriya_of(&["rAmas", "cinoti"]);
    assert!(try_change_stu_to_parasavarna(&mut p));
    assert_eq!(p.text().as_str(), "rAmaScinoti");
}

#[test]
fn stu_becomes_swu() {
    let mut p = prakriya_of(&["tat", "wIkA"]);
    assert!(try_change_stu_to_parasavarna(&mut p));
    assert_eq!(p.text().as_str(), "tawwIkA");
}

#[test]
fn dental_before_z_is_kept() {
    let mut p = prakriya_of(&["tat", "zaw"]);
    assert!(try_change_stu_to_parasavarna(&mut p));
    assert_eq!(p.text().as_str(), "tatzaw");
}

use vidyut_prakriya::constants::Tag;
use vidyut_prakriya::tripadi::{try_mn_to_anusvara, try_natva, try_ra_lopa};

#[test]
fn m_before_jhal_becomes_anusvara() {
    let mut p = prakriya_of(&["Sam", "kate"]);
    assert!(try_mn_to_anusvara(&mut p));
    assert_eq!(p.text().as_str(), "SaMkate");
}

#[test]
fn natva_after_r() {
    let mut p = prakriya_of(&["krI", "nAti"]);
    assert!(try_natva(&mut p));
    assert_eq!(p.text().as_str(), "krIRAti");
}

#[test]
fn no_natva_at_the_end() {
    let mut p = prakriya_of(&["rAmAn"]);
    assert!(try_natva(&mut p));
    assert_eq!(p.text().as_str(), "rAmAn");
}

#[test]
fn natva_blocked_for_kzubh_before_sna() {
    let mut p = Prakriya::new();
    let mut d = Term::make_upadesha("kzuBa~");
    d.text = "kzuB".to_string();
    d.add_tag(Tag::Dhatu);
    let mut sna = Term::make_upadesha("SnA");
    sna.text = "nA".to_string();
    p.push(d);
    p.push(sna);
    assert!(try_natva(&mut p));
    assert_eq!(p.text().as_str(), "kzuBnA");
}

#[test]
fn final_r_becomes_visarga() {
    let mut p = prakriya_of(&["punar"]);
    try_ra_lopa(&mut p);
    assert_eq!(p.text().as_str(), "punaH");

    let mut p = prakriya_of(&["Bavaru~"]);
    try_ra_lopa(&mut p);
    assert_eq!(p.text().as_str(), "BavaH");

    let mut p = prakriya_of(&["punar", "api"]);
    try_ra_lopa(&mut p);
    assert_eq!(p.text().as_str(), "punarapi");
}

use vidyut_prakriya::tripadi::{try_dha_lopa, try_na_lopa};

#[test]
fn na_lopa_of_a_pratipadika() {
    let mut p = Prakriya::new();
    let mut stem = Term::make_text("rAjan");
    stem.add_tag(Tag::Pratipadika);
    let mut sup = Term::make_upadesha("su~");
    sup.text = "".to_string();
    sup.add_tag(Tag::Sup);
    p.push(stem);
    p.push(sup);
    try_na_lopa(&mut p);
    assert_eq!(p.text().as_str(), "rAja");
}

#[test]
fn na_lopa_blocked_before_sambuddhi() {
    let mut p = Prakriya::new();
    let mut stem = Term::make_text("rAjan");
    stem.add_tag(Tag::Pratipadika);
    let mut sup = Term::make_upadesha("su~");
    sup.text = "".to_string();
    sup.add_tags(&[Tag::Sup, Tag::Sambuddhi]);
    p.push(stem);
    p.push(sup);
    try_na_lopa(&mut p);
    assert_eq!(p.text().as_str(), "rAjan");
}

#[test]
fn dha_lopa_lengthens_the_vowel() {
    let mut p = prakriya_of(&["liQ", "Qa"]);
    assert_eq!(try_dha_lopa(&mut p), None);
    assert_eq!(p.text().as_str(), "lIQa");
}

#[test]
fn dha_lopa_after_vah_gives_o() {
    let mut p = Prakriya::new();
    let mut vah = Term::make_upadesha("va\\ha~^");
    vah.text = "vaQ".to_string();
    p.push(vah);
    p.push(Term::make_text("Qa"));
    try_dha_lopa(&mut p);
    assert_eq!(p.text().as_str(), "voQa");
}

use vidyut_prakriya::tripadi::try_lopa_of_samyoganta_and_s;

#[test]
fn s_between_jhals_is_dropped() {
    let mut p = prakriya_of(&["Bid", "s", "ta"]);
    assert!(try_lopa_of_samyoganta_and_s(&mut p));
    assert_eq!(p.text().as_str(), "Bidta");
}

#[test]
fn final_conjunct_loses_its_last_consonant() {
    let mut p = prakriya_of(&["marj"]);
    assert!(try_lopa_of_samyoganta_and_s(&mut p));
    assert_eq!(p.text().as_str(), "mar");
}

#[test]
fn jhal_rules_leave_a_vowel_final_text() {
    let mut p = prakriya_of(&["rAma", "Aya"]);
    assert!(try_jhal_adesha(&mut p));
    assert_eq!(p.text().as_str(), "rAmaAya");
}

#[test]
fn samyoga_rules_leave_a_simple_text() {
    let mut p = prakriya_of(&["rAma", "sya"]);
    assert!(try_lopa_of_samyoganta_and_s(&mut p));
    assert_eq!(p.text().as_str(), "rAmasya");
}
