use rule_governance::errors::{GovernanceError, RelayFault, ValidationError};
use rule_governance::principal::PrincipalId;
use rule_governance::registry::{
    create_neuron_request, create_neuron_staked, str_contains, NeuronRegistry,
    MIN_DISSOLVE_DELAY_SECONDS, PLACEHOLDER_STAKE,
};
use rule_governance::relay::RelayCall;

/// A call-counting fake relay: it records every call it is asked to
/// perform and answers each with a canned response.
struct FakeRelay {
    calls: Vec<String>,
    response: Result<String, String>,
}

impl FakeRelay {
    fn new(response: Result<String, String>) -> FakeRelay {
        FakeRelay { calls: Vec::new(), response }
    }

    fn perform(&mut self, call: &RelayCall) -> Result<String, String> {
        let name = match call {
            RelayCall::Stake { .. } => "stake",
            RelayCall::SetDissolveDelay { .. } => "set-dissolve-delay",
            RelayCall::RegisterVote { .. } => "register-vote",
            RelayCall::NeuronInfo { .. } => "neuron-info",
        };
        self.calls.push(name.to_string());
        self.response.clone()
    }
}

/// Drives the create-neuron workflow the way a production driver would.
fn drive_create_neuron(
    registry: &mut NeuronRegistry,
    relay: &mut FakeRelay,
    controller: &PrincipalId,
    stake_milli: u64,
    dissolve_delay_seconds: u64,
    now: u64,
) -> Result<String, GovernanceError> {
    let stake_call = create_neuron_request(controller, stake_milli, dissolve_delay_seconds)?;
    let stake_response = relay.perform(&stake_call);
    let (neuron_id, dissolve_call) = create_neuron_staked(stake_response, dissolve_delay_seconds)?;
    let dissolve_response = relay.perform(&dissolve_call);
    registry.create_neuron_finish(controller, neuron_id, stake_milli, now, dissolve_response)
}

#[test]
fn create_neuron_insufficient_stake_makes_no_relay_call() {
    let mut registry = NeuronRegistry::new();
    let mut relay = FakeRelay::new(Ok("{\"neuron_id\": \"n-1\"}".to_string()));
    let controller = PrincipalId::new(vec![1]);
    // 0.5 tokens with a 1.0-token minimum.
    let r = drive_create_neuron(
        &mut registry,
        &mut relay,
        &controller,
        500,
        MIN_DISSOLVE_DELAY_SECONDS,
        0,
    );
    assert!(matches!(
        r,
        Err(GovernanceError::Validation(ValidationError::InsufficientStake))
    ));
    assert_eq!(relay.calls.len(), 0);
    assert!(!registry.has_registered_neuron(&controller));
}

#[test]
fn create_neuron_short_dissolve_delay_makes_no_relay_call() {
    let mut registry = NeuronRegistry::new();
    let mut relay = FakeRelay::new(Ok("{\"neuron_id\": \"n-1\"}".to_string()));
    let controller = PrincipalId::new(vec![1]);
    let r = drive_create_neuron(
        &mut registry,
        &mut relay,
        &controller,
        5000,
        MIN_DISSOLVE_DELAY_SECONDS - 1,
        0,
    );
    assert!(matches!(
        r,
        Err(GovernanceError::Validation(ValidationError::DissolveDelayTooShort))
    ));
    assert_eq!(relay.calls.len(), 0);
}

#[test]
fn create_neuron_records_truncated_stake() {
    let mut registry = NeuronRegistry::new();
    let mut relay = FakeRelay::new(Ok("{\"neuron_id\": \"n-77\"}".to_string()));
    let controller = PrincipalId::new(vec![4, 5]);
    // 5.9 tokens records as 5 whole tokens.
    let id = drive_create_neuron(
        &mut registry,
        &mut relay,
        &controller,
        5900,
        MIN_DISSOLVE_DELAY_SECONDS,
        42,
    )
    .unwrap();
    assert_eq!(id, "n-77");
    assert_eq!(relay.calls, vec!["stake".to_string(), "set-dissolve-delay".to_string()]);
    let info = registry.get_voter_neuron_info(&controller).unwrap();
    assert_eq!(info.neuron_id, "n-77");
    assert_eq!(info.stake_amount, 5);
    assert_eq!(info.created_at, 42);
    assert_eq!(
        registry.get_voter_neuron_id(&controller),
        Some("n-77".to_string())
    );
}

#[test]
fn create_neuron_reregistration_overwrites() {
    let mut registry = NeuronRegistry::new();
    let controller = PrincipalId::new(vec![7]);
    let mut relay1 = FakeRelay::new(Ok("{\"neuron_id\": \"first\"}".to_string()));
    drive_create_neuron(
        &mut registry,
        &mut relay1,
        &controller,
        2000,
        MIN_DISSOLVE_DELAY_SECONDS,
        1,
    )
    .unwrap();
    let mut relay2 = FakeRelay::new(Ok("{\"neuron_id\": \"second\"}".to_string()));
    drive_create_neuron(
        &mut registry,
        &mut relay2,
        &controller,
        3000,
        MIN_DISSOLVE_DELAY_SECONDS,
        2,
    )
    .unwrap();
    assert_eq!(registry.list_registered_neurons().len(), 1);
    let info = registry.get_voter_neuron_info(&controller).unwrap();
    assert_eq!(info.neuron_id, "second");
    assert_eq!(info.stake_amount, 3);
}

#[test]
fn create_neuron_stake_tool_failure_is_surfaced() {
    let mut registry = NeuronRegistry::new();
    let mut relay = FakeRelay::new(Err("quill exploded".to_string()));
    let controller = PrincipalId::new(vec![1]);
    let r = drive_create_neuron(
        &mut registry,
        &mut relay,
        &controller,
        2000,
        MIN_DISSOLVE_DELAY_SECONDS,
        0,
    );
    match r {
        Err(GovernanceError::Relay(RelayFault::Tool(m))) => assert_eq!(m, "quill exploded"),
        other => panic!("unexpected: {:?}", other),
    }
    // The stake call was attempted, nothing further.
    assert_eq!(relay.calls.len(), 1);
    assert!(!registry.has_registered_neuron(&controller));
}

#[test]
fn create_neuron_dissolve_failure_leaves_registry_unchanged() {
    let mut registry = NeuronRegistry::new();
    let controller = PrincipalId::new(vec![1]);
    let stake_call = create_neuron_request(&controller, 2000, MIN_DISSOLVE_DELAY_SECONDS).unwrap();
    assert!(matches!(stake_call, RelayCall::Stake { .. }));
    let (neuron_id, _dissolve_call) = create_neuron_staked(
        Ok("{\"neuron_id\": \"n-9\"}".to_string()),
        MIN_DISSOLVE_DELAY_SECONDS,
    )
    .unwrap();
    let r = registry.create_neuron_finish(
        &controller,
        neuron_id,
        2000,
        0,
        Err("dissolve failed".to_string()),
    );
    assert!(matches!(r, Err(GovernanceError::Relay(RelayFault::Tool(_)))));
    assert!(!registry.has_registered_neuron(&controller));
    assert_eq!(registry.list_registered_neurons().len(), 0);
}

#[test]
fn get_neuron_stake_prefers_local_record() {
    let mut registry = NeuronRegistry::new();
    let controller = PrincipalId::new(vec![3]);
    let mut relay = FakeRelay::new(Ok("{\"neuron_id\": \"n-3\"}".to_string()));
    drive_create_neuron(
        &mut registry,
        &mut relay,
        &controller,
        8000,
        MIN_DISSOLVE_DELAY_SECONDS,
        0,
    )
    .unwrap();
    assert_eq!(registry.cached_stake(&"n-3".to_string()), Some(8));
    // The response mentions a stake, but the cached record wins.
    let stake = registry
        .get_neuron_stake(&"n-3".to_string(), Ok("stake: 999".to_string()))
        .unwrap();
    assert_eq!(stake, 8);
}

#[test]
fn get_neuron_stake_cached_record_wins_over_relay_failure() {
    let mut registry = NeuronRegistry::new();
    let controller = PrincipalId::new(vec![3]);
    let mut relay = FakeRelay::new(Ok("{\"neuron_id\": \"n-3\"}".to_string()));
    drive_create_neuron(
        &mut registry,
        &mut relay,
        &controller,
        8000,
        MIN_DISSOLVE_DELAY_SECONDS,
        0,
    )
    .unwrap();
    // Even a failed info call cannot defeat the cached stake.
    let stake = registry
        .get_neuron_stake(&"n-3".to_string(), Err("relay down".to_string()))
        .unwrap();
    assert_eq!(stake, 8);
}

#[test]
fn get_neuron_stake_falls_back_to_placeholder() {
    let registry = NeuronRegistry::new();
    let stake = registry
        .get_neuron_stake(&"unknown".to_string(), Ok("some stake info".to_string()))
        .unwrap();
    assert_eq!(stake, PLACEHOLDER_STAKE);
}

#[test]
fn get_neuron_stake_without_stake_marker_fails() {
    let registry = NeuronRegistry::new();
    let r = registry.get_neuron_stake(&"unknown".to_string(), Ok("no such neuron".to_string()));
    assert!(matches!(r, Err(GovernanceError::Relay(RelayFault::NoStakeInfo))));
}

#[test]
fn get_neuron_stake_tool_failure() {
    let registry = NeuronRegistry::new();
    let r = registry.get_neuron_stake(&"n".to_string(), Err("unreachable".to_string()));
    match r {
        Err(GovernanceError::Relay(RelayFault::Tool(m))) => assert_eq!(m, "unreachable"),
        other => panic!("unexpected: {:?}", other),
    }
}

#[test]
fn str_contains_finds_inner_bytes() {
    assert!(str_contains("full stake info", "stake"));
    assert!(str_contains("stake", "stake"));
    assert!(str_contains("anything", ""));
    assert!(!str_contains("stak", "stake"));
    assert!(!str_contains("", "stake"));
    assert!(!str_contains("stkae", "stake"));
}
