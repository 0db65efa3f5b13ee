use rule_governance::errors::GovernanceError;
use rule_governance::principal::PrincipalId;
use rule_governance::registry::NeuronRegistry;
use rule_governance::relay::RelayCall;
use rule_governance::voting::{
    submit_vote_begin, RuleVotingEngine, ScheduleFinalize, VOTING_PERIOD_SECONDS,
};

/// Registers a neuron record directly, as a completed create-neuron
/// workflow would have.
fn register(registry: &mut NeuronRegistry, voter: &PrincipalId, neuron_id: &str, stake_milli: u64) {
    registry
        .create_neuron_finish(
            voter,
            neuron_id.to_string(),
            stake_milli,
            0,
            Ok("ack".to_string()),
        )
        .unwrap();
}

/// Drives one submit-vote exchange the way a production driver would:
/// authentication, the neuron-info relay round trip, stake resolution,
/// then the recording step.
fn drive_submit_vote(
    engine: &mut RuleVotingEngine,
    registry: &NeuronRegistry,
    voter: &PrincipalId,
    rule_id: u64,
    approve: bool,
    now: u64,
) -> Result<Option<ScheduleFinalize>, GovernanceError> {
    let (neuron_id, info_call) = submit_vote_begin(registry, voter)?;
    // Registered voters carry a locally cached stake, so no relay query
    // is asked for, and the response argument goes unread.
    assert!(info_call.is_none());
    let stake = registry.get_neuron_stake(&neuron_id, Ok(String::new()))?;
    engine.submit_vote_record(voter, neuron_id, rule_id, approve, stake, now)
}

#[test]
fn single_yes_vote_approves() {
    let mut registry = NeuronRegistry::new();
    let mut engine = RuleVotingEngine::new();
    let voter = PrincipalId::new(vec![1]);
    register(&mut registry, &voter, "n-1", 2000);
    let sched = drive_submit_vote(&mut engine, &registry, &voter, 7, true, 0).unwrap();
    assert_eq!(
        sched,
        Some(ScheduleFinalize { rule_id: 7, delay_seconds: VOTING_PERIOD_SECONDS })
    );
    let st = engine.get_voting_status(7, 0).unwrap();
    assert_eq!((st.yes, st.no, st.total), (1, 0, 1));
    engine.process_votes(7);
    // 1*2 > 1: approved.
    assert_eq!(engine.get_rule_result(7), Some(true));
}

#[test]
fn split_vote_is_not_approved() {
    let mut registry = NeuronRegistry::new();
    let mut engine = RuleVotingEngine::new();
    let a = PrincipalId::new(vec![1]);
    let b = PrincipalId::new(vec![2]);
    register(&mut registry, &a, "n-a", 1000);
    register(&mut registry, &b, "n-b", 1000);
    drive_submit_vote(&mut engine, &registry, &a, 9, true, 0).unwrap();
    drive_submit_vote(&mut engine, &registry, &b, 9, false, 10).unwrap();
    engine.process_votes(9);
    // yes=1, no=1, total=2: 2 > 2 is false.
    assert_eq!(engine.get_rule_result(9), Some(false));
}

#[test]
fn three_voters_tally_is_unweighted() {
    let mut registry = NeuronRegistry::new();
    let mut engine = RuleVotingEngine::new();
    let a = PrincipalId::new(vec![1]);
    let b = PrincipalId::new(vec![2]);
    let c = PrincipalId::new(vec![3]);
    register(&mut registry, &a, "n-a", 5000);
    register(&mut registry, &b, "n-b", 3000);
    register(&mut registry, &c, "n-c", 1000);
    drive_submit_vote(&mut engine, &registry, &a, 42, true, 0).unwrap();
    drive_submit_vote(&mut engine, &registry, &b, 42, false, 1).unwrap();
    drive_submit_vote(&mut engine, &registry, &c, 42, true, 2).unwrap();
    let st = engine.get_voting_status(42, 2).unwrap();
    assert_eq!((st.yes, st.no, st.total), (2, 1, 3));
    let action = engine.process_votes(42);
    // The decision counts heads, not stake: 2*2 > 3.
    assert_eq!(engine.get_rule_result(42), Some(true));
    // The relayed decision carries the first voter's neuron id.
    match action {
        Some(RelayCall::RegisterVote { neuron_id, proposal_id, approve }) => {
            assert_eq!(neuron_id, "n-a");
            assert_eq!(proposal_id, 42);
            assert!(approve);
        }
        other => panic!("unexpected action: {:?}", other.is_some()),
    }
}

#[test]
fn second_vote_overwrites_first() {
    let mut registry = NeuronRegistry::new();
    let mut engine = RuleVotingEngine::new();
    let voter = PrincipalId::new(vec![1]);
    register(&mut registry, &voter, "n-1", 2000);
    drive_submit_vote(&mut engine, &registry, &voter, 3, true, 0).unwrap();
    drive_submit_vote(&mut engine, &registry, &voter, 3, false, 60).unwrap();
    let st = engine.get_voting_status(3, 60).unwrap();
    // Only the final choice counts, once.
    assert_eq!((st.yes, st.no, st.total), (0, 1, 1));
    engine.process_votes(3);
    assert_eq!(engine.get_rule_result(3), Some(false));
}

#[test]
fn repeated_votes_count_once_per_voter() {
    let mut registry = NeuronRegistry::new();
    let mut engine = RuleVotingEngine::new();
    let a = PrincipalId::new(vec![1]);
    let b = PrincipalId::new(vec![2]);
    register(&mut registry, &a, "n-a", 1000);
    register(&mut registry, &b, "n-b", 1000);
    drive_submit_vote(&mut engine, &registry, &a, 5, true, 0).unwrap();
    drive_submit_vote(&mut engine, &registry, &a, 5, true, 1).unwrap();
    drive_submit_vote(&mut engine, &registry, &a, 5, true, 2).unwrap();
    drive_submit_vote(&mut engine, &registry, &b, 5, false, 3).unwrap();
    let st = engine.get_voting_status(5, 3).unwrap();
    assert_eq!((st.yes, st.no, st.total), (1, 1, 2));
    engine.process_votes(5);
    assert_eq!(engine.get_rule_result(5), Some(false));
}

#[test]
fn vote_after_window_rejected_and_tally_unchanged() {
    let mut registry = NeuronRegistry::new();
    let mut engine = RuleVotingEngine::new();
    let a = PrincipalId::new(vec![1]);
    let b = PrincipalId::new(vec![2]);
    register(&mut registry, &a, "n-a", 1000);
    register(&mut registry, &b, "n-b", 1000);
    // First vote on rule 11 at t=0; window is one hour.
    drive_submit_vote(&mut engine, &registry, &a, 11, true, 0).unwrap();
    // Second vote attempted at t = two hours.
    let r = drive_submit_vote(&mut engine, &registry, &b, 11, false, 2 * 60 * 60);
    assert!(matches!(r, Err(GovernanceError::WindowClosed)));
    let st = engine.get_voting_status(11, 2 * 60 * 60).unwrap();
    assert_eq!((st.yes, st.no, st.total), (1, 0, 1));
    // The finalize callback fired at t = one hour: only the first vote counts.
    engine.process_votes(11);
    assert_eq!(engine.get_rule_result(11), Some(true));
}

#[test]
fn result_absent_before_finalize_and_defined_after() {
    let mut registry = NeuronRegistry::new();
    let mut engine = RuleVotingEngine::new();
    let voter = PrincipalId::new(vec![1]);
    register(&mut registry, &voter, "n-1", 1000);
    assert_eq!(engine.get_rule_result(13), None);
    drive_submit_vote(&mut engine, &registry, &voter, 13, true, 0).unwrap();
    assert_eq!(engine.get_rule_result(13), None);
    engine.process_votes(13);
    assert_eq!(engine.get_rule_result(13), Some(true));
}

#[test]
fn unregistered_voter_is_unauthenticated() {
    let registry = NeuronRegistry::new();
    let mut engine = RuleVotingEngine::new();
    let voter = PrincipalId::new(vec![1]);
    let r = drive_submit_vote(&mut engine, &registry, &voter, 1, true, 0);
    assert!(matches!(r, Err(GovernanceError::Unauthenticated)));
    assert!(engine.get_voting_status(1, 0).is_none());
}

#[test]
fn only_the_first_vote_schedules_finalization() {
    let mut registry = NeuronRegistry::new();
    let mut engine = RuleVotingEngine::new();
    let a = PrincipalId::new(vec![1]);
    let b = PrincipalId::new(vec![2]);
    register(&mut registry, &a, "n-a", 1000);
    register(&mut registry, &b, "n-b", 1000);
    let first = drive_submit_vote(&mut engine, &registry, &a, 6, true, 0).unwrap();
    assert!(first.is_some());
    let second = drive_submit_vote(&mut engine, &registry, &b, 6, true, 1).unwrap();
    assert!(second.is_none());
}

#[test]
fn voting_status_time_remaining() {
    let mut registry = NeuronRegistry::new();
    let mut engine = RuleVotingEngine::new();
    let voter = PrincipalId::new(vec![1]);
    register(&mut registry, &voter, "n-1", 1000);
    drive_submit_vote(&mut engine, &registry, &voter, 2, true, 100).unwrap();
    assert_eq!(engine.get_voting_status(2, 100).unwrap().time_remaining_seconds, 3600);
    assert_eq!(engine.get_voting_status(2, 1900).unwrap().time_remaining_seconds, 1800);
    assert_eq!(engine.get_voting_status(2, 10_000).unwrap().time_remaining_seconds, 0);
    assert!(engine.get_voting_status(999, 100).is_none());
}

#[test]
fn finalize_of_unopened_rule_records_nothing() {
    let mut engine = RuleVotingEngine::new();
    let action = engine.process_votes(404);
    assert!(action.is_none());
    assert_eq!(engine.get_rule_result(404), None);
}
