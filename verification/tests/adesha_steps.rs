use vidyut_prakriya::ardhadhatuka::dhatu_adesha_before_vikarana;
use vidyut_prakriya::constants::{La, Tag};
use vidyut_prakriya::prakriya::{Config, Prakriya, RuleChoice};
use vidyut_prakriya::term::Term;

fn dhatu(u: &str, text: &str) -> Term {
    let mut t = Term::make_dhatu(u, 1, 1);
    t.text = text.to_string();
    t.add_tag(Tag::Dhatu);
    t
}

fn suffix(u: &str, text: &str) -> Term {
    let mut t = Term::make_upadesha(u);
    t.text = text.to_string();
    t.add_tag(Tag::Pratyaya);
    t
}

fn run(choices: Vec<RuleChoice>, terms: Vec<Term>, la: La, log_steps: bool) -> Prakriya {
    let mut p = Prakriya::with_config(Config {
        rule_choices: choices,
        log_steps,
    });
    for t in terms {
        p.push(t);
    }
    dhatu_adesha_before_vikarana(&mut p, la);
    p
}

#[test]
fn as_records_its_own_rule_with_the_new_text() {
    let p = run(vec![], vec![dhatu("asa~", "as"), suffix("tip", "ti")], La::Lrt, true);
    let last = p.history().last().unwrap();
    assert_eq!(last.rule, "2.4.52");
    assert_eq!(last.state, "BU + ti");
    assert!(p.history().iter().all(|s| s.rule != "2.4.53"));
    assert!(p.rule_choices().is_empty());
}

#[test]
fn bru_records_its_own_rule() {
    let p = run(vec![], vec![dhatu("brUY", "brU"), suffix("tip", "ti")], La::Lrt, true);
    assert_eq!(p.history().last().unwrap().rule, "2.4.53");
    assert!(p.history().iter().all(|s| s.rule != "2.4.52"));
}

#[test]
fn no_steps_recorded_without_logging() {
    let p = run(vec![], vec![dhatu("asa~", "as"), suffix("tip", "ti")], La::Lrt, false);
    assert_eq!(p.terms()[0].text, "BU");
    assert!(p.history().is_empty());
}

#[test]
fn optional_rule_records_its_decision() {
    let p = run(vec![], vec![dhatu("ad", "ad"), suffix("Ral", "a")], La::Lat, true);
    assert!(p.rule_choices().is_empty());

    let mut lit = suffix("Ral", "a");
    lit.lakshana.push("li~w".to_string());
    let p = run(vec![], vec![dhatu("ad", "ad"), lit.clone()], La::Lit, true);
    assert_eq!(p.rule_choices().len(), 1);
    assert!(matches!(p.rule_choices()[0], RuleChoice::Accept("2.4.40")));
    assert_eq!(p.history().last().unwrap().rule, "2.4.40");

    let p = run(vec![RuleChoice::Decline("2.4.40")], vec![dhatu("ad", "ad"), lit], La::Lit, true);
    assert_eq!(p.terms()[0].text, "ad");
    assert_eq!(p.rule_choices().len(), 1);
    assert!(matches!(p.rule_choices()[0], RuleChoice::Decline("2.4.40")));
    assert!(p.history().is_empty());
}

#[test]
fn aj_before_lyut_records_the_decision_on_2_4_57() {
    let p = run(vec![], vec![dhatu("aja~", "aj"), suffix("lyuw", "ana")], La::Lut, true);
    assert_eq!(p.terms()[0].text, "aj");
    assert_eq!(p.rule_choices().len(), 1);
    assert!(matches!(p.rule_choices()[0], RuleChoice::Accept("2.4.57")));
    assert!(p.history().is_empty());

    let p = run(
        vec![RuleChoice::Decline("2.4.57")],
        vec![dhatu("aja~", "aj"), suffix("lyuw", "ana")],
        La::Lut,
        true,
    );
    assert!(matches!(p.rule_choices()[0], RuleChoice::Decline("2.4.57")));
    assert_eq!(p.history().last().unwrap().rule, "2.4.56");
}
