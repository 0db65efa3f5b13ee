use rule_governance::catalog::{GuardrailCatalog, Guardrail, Rule, RuleStatus};
use rule_governance::errors::{GovernanceError, ValidationError};
use rule_governance::identifier::BoundedString;
use rule_governance::principal::PrincipalId;

fn bs(text: &str) -> BoundedString {
    BoundedString::new(text.to_string()).expect("within bounds")
}

fn sample_guardrail(id: &str, owner: &PrincipalId) -> Guardrail {
    Guardrail {
        id: bs(id),
        name: bs("safety net"),
        category: bs("moderation"),
        rules: Vec::new(),
        owner: owner.clone(),
        created_at: 11,
    }
}

#[test]
fn bounded_string_accepts_up_to_the_cap() {
    let ok = BoundedString::new("a".repeat(512));
    assert!(ok.is_ok());
    assert_eq!(ok.unwrap().as_str().len(), 512);
}

#[test]
fn bounded_string_rejects_over_the_cap() {
    let err = BoundedString::new("a".repeat(513));
    assert!(matches!(
        err,
        Err(GovernanceError::Validation(ValidationError::FieldTooLong))
    ));
}

#[test]
fn create_guardrail_returns_its_id() {
    let mut catalog = GuardrailCatalog::new();
    let owner = PrincipalId::new(vec![1, 2]);
    let id = catalog
        .create_guardrail(sample_guardrail("g1", &owner))
        .unwrap();
    assert_eq!(id.as_str(), "g1");
    let got = catalog.get_guardrail(&bs("g1")).unwrap();
    assert_eq!(got.name.as_str(), "safety net");
    assert_eq!(got.created_at, 11);
}

#[test]
fn create_guardrail_upserts_by_id() {
    let mut catalog = GuardrailCatalog::new();
    let owner = PrincipalId::new(vec![1]);
    catalog
        .create_guardrail(sample_guardrail("g1", &owner))
        .unwrap();
    let mut replacement = sample_guardrail("g1", &owner);
    replacement.name = bs("second version");
    catalog.create_guardrail(replacement).unwrap();
    assert_eq!(catalog.get_all_gaurdrails().len(), 1);
    let got = catalog.get_guardrail(&bs("g1")).unwrap();
    assert_eq!(got.name.as_str(), "second version");
}

#[test]
fn get_guardrail_not_found() {
    let catalog = GuardrailCatalog::new();
    assert!(matches!(
        catalog.get_guardrail(&bs("missing")),
        Err(GovernanceError::NotFound)
    ));
}

#[test]
fn propose_rule_appends_as_proposed_with_zero_votes() {
    let mut catalog = GuardrailCatalog::new();
    let owner = PrincipalId::new(vec![9]);
    catalog
        .create_guardrail(sample_guardrail("g1", &owner))
        .unwrap();
    let rule = Rule {
        id: bs("r1"),
        text: bs("no insults"),
        status: RuleStatus::Approved,
        votes: 7,
    };
    let rule_id = catalog.propose_rule(&bs("g1"), rule).unwrap();
    assert_eq!(rule_id.as_str(), "r1");
    let got = catalog.get_guardrail(&bs("g1")).unwrap();
    assert_eq!(got.rules.len(), 1);
    assert_eq!(got.rules[0].id.as_str(), "r1");
    assert_eq!(got.rules[0].text.as_str(), "no insults");
    assert!(matches!(got.rules[0].status, RuleStatus::Proposed));
    assert_eq!(got.rules[0].votes, 0);
}

#[test]
fn propose_rule_unknown_guardrail() {
    let mut catalog = GuardrailCatalog::new();
    let rule = Rule {
        id: bs("r1"),
        text: bs("no spam"),
        status: RuleStatus::Proposed,
        votes: 0,
    };
    assert!(matches!(
        catalog.propose_rule(&bs("missing"), rule),
        Err(GovernanceError::NotFound)
    ));
}

#[test]
fn list_by_owner_filters() {
    let mut catalog = GuardrailCatalog::new();
    let alice = PrincipalId::new(vec![1]);
    let bob = PrincipalId::new(vec![2]);
    catalog
        .create_guardrail(sample_guardrail("a1", &alice))
        .unwrap();
    catalog
        .create_guardrail(sample_guardrail("b1", &bob))
        .unwrap();
    catalog
        .create_guardrail(sample_guardrail("a2", &alice))
        .unwrap();
    let all = catalog.get_all_gaurdrails();
    assert_eq!(all.len(), 3);
    let of_alice = catalog.get_guardrails_by_owner(&alice);
    assert_eq!(of_alice.len(), 2);
    assert_eq!(of_alice[0].id.as_str(), "a1");
    assert_eq!(of_alice[1].id.as_str(), "a2");
    let of_bob = catalog.get_guardrails_by_owner(&bob);
    assert_eq!(of_bob.len(), 1);
    assert_eq!(of_bob[0].id.as_str(), "b1");
}
