use vidyut_prakriya::constants::Tag;
use vidyut_prakriya::prakriya::{Config, Prakriya, RuleChoice};
use vidyut_prakriya::term::Term;
use vidyut_prakriya::tripadi;
use vidyut_prakriya::tripadi::pada_8_2::{
    per_term_1b, per_term_1c, try_add_final_r, try_ch_to_s, try_change_r_to_l, try_ha_adesha,
    try_lengthen_dhatu_vowel,
};
use vidyut_prakriya::tripadi::pada_8_3::{
    try_murdhanya, try_murdhanya_for_dha_in_tinanta, try_murdhanya_for_s,
};
use vidyut_prakriya::tripadi::pada_8_4::try_to_savarna;

fn term(u: &str, text: &str, tags: &[Tag]) -> Term {
    let mut t = Term::make_upadesha(u);
    t.text = text.to_string();
    for tag in tags {
        t.add_tag(*tag);
    }
    t
}

fn dhatu(u: &str, text: &str, gana: i32) -> Term {
    let mut t = Term::make_dhatu(u, gana, 1);
    t.text = text.to_string();
    t.add_tag(Tag::Dhatu);
    t
}

fn texts(p: &Prakriya) -> Vec<String> {
    p.terms().iter().map(|t| t.text.clone()).collect()
}

fn with_choices(choices: Vec<RuleChoice>, terms: Vec<Term>) -> Prakriya {
    let mut p = Prakriya::with_config(Config {
        rule_choices: choices,
        log_steps: true,
    });
    for t in terms {
        p.push(t);
    }
    p
}

fn of(terms: Vec<Term>) -> Prakriya {
    with_choices(vec![], terms)
}

#[test]
fn ha_becomes_dha_before_jhal() {
    let mut p = of(vec![dhatu("li\\ha~^", "lih", 2), term("kta", "ta", &[Tag::Pratyaya])]);
    assert_eq!(try_ha_adesha(&mut p), Some(()));
    assert_eq!(texts(&p), vec!["liQ", "ta"]);
}

#[test]
fn ha_stays_before_a_vowel() {
    let mut p = of(vec![dhatu("li\\ha~^", "lih", 2), term("Sap", "a", &[Tag::Pratyaya])]);
    try_ha_adesha(&mut p);
    assert_eq!(texts(&p), vec!["lih", "a"]);
}

#[test]
fn ha_of_dah_becomes_gha() {
    let mut p = of(vec![dhatu("da\\ha~", "dah", 1), term("kta", "ta", &[Tag::Pratyaya])]);
    try_ha_adesha(&mut p);
    assert_eq!(texts(&p), vec!["daG", "ta"]);
}

#[test]
fn ha_of_muh_is_optionally_gha() {
    let mut p = of(vec![dhatu("mu\\ha~", "muh", 4), term("kta", "ta", &[Tag::Pratyaya])]);
    try_ha_adesha(&mut p);
    assert_eq!(texts(&p), vec!["muG", "ta"]);

    let mut p = with_choices(
        vec![RuleChoice::Decline("8.2.33")],
        vec![dhatu("mu\\ha~", "muh", 4), term("kta", "ta", &[Tag::Pratyaya])],
    );
    try_ha_adesha(&mut p);
    assert_eq!(texts(&p), vec!["muQ", "ta"]);
    assert_eq!(p.rule_choices().len(), 1);
}

#[test]
fn ha_of_nah_becomes_dha_and_ah_becomes_tha() {
    let mut p = of(vec![dhatu("Ra\\ha~^", "nah", 4)]);
    try_ha_adesha(&mut p);
    assert_eq!(texts(&p), vec!["naD"]);

    let mut p = of(vec![dhatu("aha~", "Ah", 5)]);
    try_ha_adesha(&mut p);
    assert_eq!(texts(&p), vec!["AT"]);
}

#[test]
fn ch_and_sh_become_sha_at_the_end() {
    let mut p = of(vec![dhatu("pra\\Ca~", "pftC", 6), term("kta", "ta", &[Tag::Pratyaya])]);
    try_ch_to_s(&mut p);
    assert_eq!(texts(&p), vec!["pfz", "ta"]);

    let mut p = of(vec![dhatu("yaja~^", "yaj", 1), term("kta", "ta", &[Tag::Pratyaya])]);
    try_ch_to_s(&mut p);
    assert_eq!(texts(&p), vec!["yaj", "ta"]);

    let mut p = of(vec![dhatu("ya\\ja~^", "yaj", 1), term("kta", "ta", &[Tag::Pratyaya])]);
    try_ch_to_s(&mut p);
    assert_eq!(texts(&p), vec!["yaz", "ta"]);

    let mut p = of(vec![dhatu("diSa~^", "diS", 6), term("kta", "ti", &[Tag::Pratyaya])]);
    try_ch_to_s(&mut p);
    assert_eq!(texts(&p), vec!["diz", "ti"]);
}

#[test]
fn cu_becomes_ku_and_jhal_becomes_jash() {
    let mut p = of(vec![dhatu("vaca~", "vac", 2), term("kta", "ta", &[Tag::Pratyaya])]);
    assert_eq!(per_term_1b(&mut p), Some(()));
    assert_eq!(texts(&p), vec!["vak", "ta"]);

    let mut p = of(vec![term("vAc", "vAc", &[])]);
    per_term_1b(&mut p);
    // 8.2.30 gives `vAk`, and 8.2.39 then gives `vAg`.
    assert_eq!(texts(&p), vec!["vAg"]);
}

#[test]
fn bash_becomes_bhaz_before_s() {
    let mut p = of(vec![dhatu("buDa~", "buD", 1), term("sya", "sya", &[Tag::Pratyaya])]);
    per_term_1b(&mut p);
    assert_eq!(texts(&p), vec!["BuD", "sya"]);
}

#[test]
fn ta_becomes_dha_after_jhash() {
    let mut p = of(vec![dhatu("buDa~", "buD", 1), term("kta", "ta", &[Tag::Pratyaya])]);
    assert_eq!(per_term_1c(&mut p), Some(()));
    assert_eq!(texts(&p), vec!["buD", "Da"]);
}

#[test]
fn za_becomes_ka_before_s_and_m_becomes_n() {
    let mut p = of(vec![term("dviz", "dviz", &[]), term("sya", "sya", &[Tag::Pratyaya])]);
    per_term_1c(&mut p);
    assert_eq!(texts(&p), vec!["dvik", "sya"]);

    let mut p = of(vec![dhatu("pra\\Sa~m", "praSam", 4), term("vas", "vas", &[Tag::Pratyaya])]);
    per_term_1c(&mut p);
    assert_eq!(texts(&p), vec!["praSan", "vas"]);
}

#[test]
fn final_s_becomes_ru() {
    let mut p = of(vec![term("rAmas", "rAmas", &[])]);
    assert_eq!(try_add_final_r(&mut p), Some(()));
    assert_eq!(texts(&p), vec!["rAmaru~"]);

    let mut p = of(vec![term("", "", &[])]);
    assert_eq!(try_add_final_r(&mut p), None);
}

#[test]
fn final_s_before_tip_becomes_d() {
    let mut p = of(vec![term("SAs", "aSAs", &[]), term("tip", "", &[Tag::Pratyaya])]);
    try_add_final_r(&mut p);
    assert_eq!(texts(&p), vec!["aSAd", ""]);
}

#[test]
fn final_s_before_sip_is_optionally_ru() {
    let mut p = of(vec![term("SAs", "aSAs", &[]), term("sip", "", &[Tag::Pratyaya])]);
    try_add_final_r(&mut p);
    assert_eq!(texts(&p), vec!["aSAru~", ""]);

    let mut p = with_choices(
        vec![RuleChoice::Decline("8.2.74")],
        vec![term("SAs", "aSAs", &[]), term("sip", "", &[Tag::Pratyaya])],
    );
    try_add_final_r(&mut p);
    assert_eq!(texts(&p), vec!["aSAru~", ""]);
}

#[test]
fn vowel_before_r_and_consonant_is_lengthened() {
    let mut p = of(vec![dhatu("kfti~", "kirt", 10), term("kta", "ta", &[Tag::Pratyaya])]);
    assert_eq!(try_lengthen_dhatu_vowel(&mut p), Some(()));
    assert_eq!(texts(&p), vec!["kIrt", "ta"]);

    let mut p = of(vec![dhatu("Divi~", "Div", 1), term("Sap", "ya", &[Tag::Pratyaya])]);
    try_lengthen_dhatu_vowel(&mut p);
    assert_eq!(texts(&p), vec!["DIv", "ya"]);

    let mut p = of(vec![dhatu("kur", "kur", 6), term("Sap", "ya", &[Tag::Pratyaya])]);
    try_lengthen_dhatu_vowel(&mut p);
    assert_eq!(texts(&p), vec!["kur", "ya"]);

    let mut p = of(vec![dhatu("Divi~", "Div", 1)]);
    assert_eq!(try_lengthen_dhatu_vowel(&mut p), None);
    assert_eq!(texts(&p), vec!["Div"]);
}

#[test]
fn r_of_kfp_becomes_l() {
    let mut p = of(vec![dhatu("kfpU~\\", "karp", 1), term("Sap", "a", &[Tag::Pratyaya])]);
    assert_eq!(try_change_r_to_l(&mut p), None);
    assert_eq!(texts(&p), vec!["kalp", "a"]);

    let mut p = of(vec![dhatu("kfpU~\\", "kfp", 1)]);
    try_change_r_to_l(&mut p);
    assert_eq!(texts(&p), vec!["kfp"]);
}

#[test]
fn r_of_gf_becomes_l_before_yan() {
    let mut p = of(vec![dhatu("gF", "gir", 6), term("yaN", "ya", &[Tag::Pratyaya])]);
    try_change_r_to_l(&mut p);
    assert_eq!(texts(&p), vec!["gil", "ya"]);

    let mut p = of(vec![dhatu("gF", "gir", 6), term("Sa", "a", &[Tag::Pratyaya])]);
    try_change_r_to_l(&mut p);
    assert_eq!(texts(&p), vec!["gil", "a"]);

    let mut p = with_choices(
        vec![RuleChoice::Decline("8.2.21")],
        vec![dhatu("gF", "gir", 6), term("Sa", "a", &[Tag::Pratyaya])],
    );
    try_change_r_to_l(&mut p);
    assert_eq!(texts(&p), vec!["gir", "a"]);
}

#[test]
fn sa_of_a_pratyaya_becomes_murdhanya() {
    let mut p = of(vec![dhatu("RI\\Y", "ne", 1), term("sya", "sya", &[Tag::Pratyaya])]);
    assert_eq!(try_murdhanya_for_s(&mut p), Some(()));
    assert_eq!(texts(&p), vec!["ne", "zya"]);

    let mut p = of(vec![dhatu("qukf\\Y", "kar", 8), term("sya", "sya", &[Tag::Pratyaya])]);
    try_murdhanya_for_s(&mut p);
    assert_eq!(texts(&p), vec!["kar", "zya"]);

    let mut p = of(vec![term("rAma", "rAma", &[]), term("sya", "sya", &[Tag::Pratyaya])]);
    try_murdhanya_for_s(&mut p);
    assert_eq!(texts(&p), vec!["rAma", "sya"]);
}

#[test]
fn sa_of_shas_becomes_murdhanya() {
    let mut p = of(vec![dhatu("SAsu~", "Siz", 2), term("kta", "ta", &[Tag::Pratyaya])]);
    try_murdhanya_for_s(&mut p);
    assert_eq!(texts(&p), vec!["Siz", "ta"]);

    let mut p = of(vec![dhatu("SAsu~", "Sis", 2), term("kta", "ta", &[Tag::Pratyaya])]);
    try_murdhanya_for_s(&mut p);
    assert_eq!(texts(&p), vec!["Siz", "ta"]);
}

#[test]
fn dha_becomes_murdhanya_in_lun() {
    let mut tin = term("Dvam", "Dvam", &[Tag::Pratyaya]);
    tin.lakshana.push("lu~N".to_string());
    let mut p = of(vec![dhatu("qukf\\Y", "akf", 8), term("si~c", "", &[Tag::Pratyaya]), tin]);
    assert_eq!(try_murdhanya_for_dha_in_tinanta(&mut p), Some(()));
    assert_eq!(texts(&p), vec!["akf", "", "Qvam"]);

    let mut tin = term("Dvam", "Dvam", &[Tag::Pratyaya]);
    tin.lakshana.push("la~N".to_string());
    let mut p = of(vec![dhatu("qukf\\Y", "akf", 8), tin]);
    try_murdhanya_for_dha_in_tinanta(&mut p);
    assert_eq!(texts(&p), vec!["akf", "Dvam"]);
}

#[test]
fn dha_after_it_is_optionally_murdhanya() {
    let mut tin = term("Dvam", "Dvam", &[Tag::Pratyaya]);
    tin.lakshana.push("lu~N".to_string());
    let mut it = Term::make_agama("iw");
    it.text = "i".to_string();
    let mut p = with_choices(
        vec![RuleChoice::Decline("8.3.79")],
        vec![dhatu("lUY", "alav", 9), it, tin],
    );
    try_murdhanya(&mut p);
    assert_eq!(texts(&p), vec!["alav", "i", "Dvam"]);
    assert_eq!(p.rule_choices().len(), 1);
}

#[test]
fn anusvara_becomes_the_nasal_of_the_next_class() {
    let mut p = of(vec![term("SaMka", "SaMka", &[])]);
    assert!(try_to_savarna(&mut p));
    assert_eq!(texts(&p), vec!["SaNka"]);

    let mut p = of(vec![term("kuMWa", "kuMWa", &[])]);
    assert!(try_to_savarna(&mut p));
    assert_eq!(texts(&p), vec!["kuRWa"]);
}

#[test]
fn anusvara_before_a_semivowel_does_not_settle() {
    let mut p = of(vec![term("saMyata", "saMyata", &[])]);
    assert!(!try_to_savarna(&mut p));
    assert_eq!(texts(&p), vec!["saMyata"]);
}

#[test]
fn doubled_yam_after_a_consonant_is_dropped() {
    let mut p = of(vec![term("Adityya", "Adityya", &[])]);
    assert!(try_to_savarna(&mut p));
    assert_eq!(texts(&p), vec!["Aditya"]);

    let mut p = with_choices(
        vec![RuleChoice::Decline("8.4.64")],
        vec![term("Adityya", "Adityya", &[])],
    );
    assert!(try_to_savarna(&mut p));
    assert_eq!(texts(&p), vec!["Adityya"]);
}

#[test]
fn savarna_jhar_after_a_consonant_is_dropped() {
    let mut p = of(vec![term("Bindd", "Bindd", &[])]);
    assert!(try_to_savarna(&mut p));
    assert_eq!(texts(&p), vec!["Bind"]);
}

#[test]
fn tripadi_runs_in_order() {
    let mut p = of(vec![dhatu("buDa~", "buD", 1), term("kta", "ta", &[Tag::Pratyaya])]);
    tripadi::run(&mut p);
    assert_eq!(texts(&p), vec!["bud", "Da"]);

    let mut p = of(vec![dhatu("li\\ha~^", "lih", 2), term("kta", "ta", &[Tag::Pratyaya])]);
    tripadi::run(&mut p);
    // 8.2.31, 8.2.40, 8.4.41, then 8.3.13 with 6.3.111.
    assert_eq!(texts(&p), vec!["lI", "Qa"]);
}

#[test]
fn savarna_rules_leave_a_text_with_nothing_to_change() {
    let mut p = of(vec![term("rAma", "rAma", &[])]);
    assert!(try_to_savarna(&mut p));
    assert_eq!(texts(&p), vec!["rAma"]);
}
