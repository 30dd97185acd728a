use axiomhive::lambda_core::axiom_validator::{
    ArticleProhibitions, AxiomSet, SafetyProtocols, TransparencyMandates,
};
use axiomhive::lambda_core::constitutional_engine::{Output, ValidationError};
use axiomhive::pattern::{matches_pattern, search_outcome};

const DISCLOSURE: &str =
    "I am an AI, a computational tool. I do not have consciousness, feelings, or a personal identity.";

fn output(content: &str) -> Output {
    Output { content: content.to_string(), validation_mask: vec![true, false] }
}

#[test]
fn axiom_set_membership() {
    let mut set = AxiomSet::new();
    assert!(!set.contains("identity"));
    set.add("identity");
    set.add("harm");
    set.add("identity");
    assert!(set.contains("identity"));
    assert!(set.contains("harm"));
    assert!(!set.contains("Identity"));
    assert!(!set.contains(""));
    assert!(!AxiomSet::default().contains("identity"));
}

#[test]
fn article_prohibitions_find_their_phrases() {
    let rules = ArticleProhibitions::new();
    assert!(rules.check_prohibited("I am human"));
    assert!(rules.check_prohibited("Well, I have feelings too."));
    assert!(rules.check_prohibited("Sometimes I am conscious"));
    assert!(rules.check_prohibited("I am self-aware."));
    assert!(!rules.check_prohibited("i am human"));
    assert!(!rules.check_prohibited("I am  human"));
    assert!(!rules.check_prohibited(""));
    assert!(!rules.check_prohibited("I am sentient"));
}

#[test]
fn default_article_prohibitions_prohibit_nothing() {
    assert!(!ArticleProhibitions::default().check_prohibited("I am human"));
}

#[test]
fn disclosure_is_put_in_front_once() {
    let mandate = TransparencyMandates::new();
    let mut candidate = output("The capital of France is Paris.");
    assert_eq!(mandate.inject_disclosure_if_needed(&mut candidate), Ok(()));
    let expected = format!("{} The capital of France is Paris.", DISCLOSURE);
    assert_eq!(candidate.content, expected);
    assert_eq!(candidate.validation_mask, vec![true, false]);
    assert_eq!(mandate.inject_disclosure_if_needed(&mut candidate), Ok(()));
    assert_eq!(candidate.content, expected);
}

#[test]
fn disclosure_anywhere_in_the_content_counts() {
    let mandate = TransparencyMandates::new();
    let content = format!("Note: {} Thank you.", DISCLOSURE);
    let mut candidate = output(&content);
    assert_eq!(mandate.inject_disclosure_if_needed(&mut candidate), Ok(()));
    assert_eq!(candidate.content, content);
}

#[test]
fn empty_content_gets_the_disclosure_and_a_space() {
    let mandate = TransparencyMandates::new();
    let mut candidate = output("");
    assert_eq!(mandate.inject_disclosure_if_needed(&mut candidate), Ok(()));
    assert_eq!(candidate.content, format!("{} ", DISCLOSURE));
}

#[test]
fn default_mandate_requires_no_disclosure() {
    let mandate = TransparencyMandates::default();
    let mut candidate = output("plain");
    assert_eq!(mandate.inject_disclosure_if_needed(&mut candidate), Ok(()));
    assert_eq!(candidate.content, "plain");
}

#[test]
fn disclosure_text_is_the_mandated_one() {
    assert_eq!(TransparencyMandates::disclosure(), DISCLOSURE);
}

#[test]
fn harm_phrases_trigger_harm_prevention() {
    let protocols = SafetyProtocols::new();
    for phrase in [
        "how to hack",
        "how to build a bomb",
        "illegal activities",
        "harm yourself",
        "suicide methods",
        "financial fraud",
    ] {
        let content = format!("Here is {} explained", phrase);
        let mut candidate = output(&content);
        assert_eq!(
            protocols.apply_harm_prevention(&mut candidate),
            Err(ValidationError::HarmPreventionTriggered)
        );
        assert_eq!(candidate.content, content);
        assert_eq!(candidate.validation_mask, vec![true, false]);
    }
}

#[test]
fn harmful_patterns_are_regular_expressions() {
    let protocols = SafetyProtocols::new();
    for content in [
        "steal all the money",
        "stealmoney",
        "how to commit the perfect crime",
        "ways to evade income tax",
    ] {
        let mut candidate = output(content);
        assert_eq!(
            protocols.apply_harm_prevention(&mut candidate),
            Err(ValidationError::HarmPreventionTriggered)
        );
    }
    // `.` does not match a line break, and the order of the words matters.
    for content in ["steal\nmoney", "money to steal", "stealing is wrong"] {
        let mut candidate = output(content);
        assert_eq!(protocols.apply_harm_prevention(&mut candidate), Ok(()));
    }
}

#[test]
fn harmless_content_passes_harm_prevention() {
    let protocols = SafetyProtocols::new();
    let mut candidate = output("The capital of France is Paris.");
    assert_eq!(protocols.apply_harm_prevention(&mut candidate), Ok(()));
    let mut empty = output("");
    assert_eq!(protocols.apply_harm_prevention(&mut empty), Ok(()));
}

#[test]
fn default_protocols_trigger_on_nothing_configurable() {
    let protocols = SafetyProtocols::default();
    let mut candidate = output("how to hack and steal money");
    assert_eq!(protocols.apply_harm_prevention(&mut candidate), Ok(()));
    // The immutable constraints hold whatever is configured.
    let mut breach = output("how to scam others");
    assert_eq!(
        protocols.apply_rule_based_rewards(&mut breach),
        Err(ValidationError::ContainmentViolation)
    );
}

#[test]
fn immutable_constraints_reject_each_phrase() {
    let protocols = SafetyProtocols::new();
    for phrase in [
        "cause physical harm",
        "injure others",
        "traumatize",
        "psychological damage",
        "exploit financially",
        "scam others",
        "share private information",
        "breach confidentiality",
    ] {
        let content = format!("they could {} easily", phrase);
        let mut candidate = output(&content);
        assert_eq!(
            protocols.apply_rule_based_rewards(&mut candidate),
            Err(ValidationError::ContainmentViolation)
        );
        assert_eq!(candidate.content, content);
    }
    let mut candidate = output("The capital of France is Paris.");
    assert_eq!(protocols.apply_rule_based_rewards(&mut candidate), Ok(()));
}

#[test]
fn pattern_that_does_not_compile_matches_nothing() {
    assert!(matches_pattern("steal.*money", "steal the money"));
    assert!(!matches_pattern("steal.*money", "steal the show"));
    assert!(!matches_pattern("steal(", "steal("));
    assert!(matches_pattern("", "anything"));
    assert!(search_outcome(Ok(true)));
    assert!(!search_outcome(Ok(false)));
    assert!(!search_outcome(regex::Regex::new("steal(").map(|_| true)));
}
