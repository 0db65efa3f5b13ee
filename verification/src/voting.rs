//! The rule-voting state machine.
//!
//! A proposal is unopened until its first vote arrives; that first vote
//! opens an in-flight entry, stamps its start time and asks the driver to
//! schedule a one-shot finalize callback one voting period later. Further
//! votes within the window overwrite per voter — the last vote per voter
//! counts. When the callback fires, the tally is an unweighted strict
//! majority of the final per-voter choices, the decision is recorded, and
//! one register-vote relay call is handed back, carrying the neuron id of
//! the entry's first voter. The in-flight entry is retained after
//! finalization; a vote arriving after the window is rejected and changes
//! nothing.

use vstd::prelude::*;
use crate::assoc::{
    assoc_find, assoc_unique, lemma_assoc_find_absent, lemma_assoc_find_at,
    lemma_assoc_find_push, lemma_assoc_find_update,
};
use crate::errors::GovernanceError;
use crate::principal::PrincipalId;
use crate::registry::{find_neuron, stake_by_neuron_id, NeuronRegistry};
use crate::relay::{RelayCall, RelayCallView};

verus! {

/// Length of the voting window, in seconds.
pub const VOTING_PERIOD_SECONDS: u64 = 3600;

/// One voter's recorded vote: choice, neuron handle and declared stake.
/// The stake is recorded but does not weight the tally.
pub struct VoteRecord {
    pub voter: PrincipalId,
    pub approve: bool,
    pub neuron_id: String,
    pub stake: u64,
}

/// The mathematical value of a `VoteRecord`.
pub struct VoteRecordView {
    pub voter: Seq<u8>,
    pub approve: bool,
    pub neuron_id: Seq<char>,
    pub stake: u64,
}

impl View for VoteRecord {
    type V = VoteRecordView;

    open spec fn view(&self) -> VoteRecordView {
        VoteRecordView {
            voter: self.voter@,
            approve: self.approve,
            neuron_id: self.neuron_id@,
            stake: self.stake,
        }
    }
}

impl Clone for VoteRecord {
    fn clone(&self) -> (r: Self)
        ensures
            r@ == self@,
    {
        VoteRecord {
            voter: self.voter.clone(),
            approve: self.approve,
            neuron_id: self.neuron_id.clone(),
            stake: self.stake,
        }
    }
}

/// One proposal's in-flight voting state.
pub struct RuleVote {
    pub records: Vec<VoteRecord>,
    pub start_time: u64,
}

/// The mathematical value of a `RuleVote`.
pub struct RuleVoteView {
    pub records: Seq<VoteRecordView>,
    pub start_time: u64,
}

impl View for RuleVote {
    type V = RuleVoteView;

    open spec fn view(&self) -> RuleVoteView {
        RuleVoteView { records: record_views(self.records@), start_time: self.start_time }
    }
}

/// The views of a sequence of vote records.
pub open spec fn record_views(s: Seq<VoteRecord>) -> Seq<VoteRecordView> {
    s.map_values(|r: VoteRecord| r@)
}

/// No voter occurs twice among the records.
pub open spec fn unique_voters(records: Seq<VoteRecordView>) -> bool {
    forall|i: int, j: int| 0 <= i < j < records.len() ==> (#[trigger] records[i]).voter != (
    #[trigger] records[j]).voter
}

/// The recorded choice of `voter`, if any.
pub open spec fn choice_of(records: Seq<VoteRecordView>, voter: Seq<u8>) -> Option<bool>
    decreases records.len(),
{
    if records.len() == 0 {
        None
    } else if records[0].voter == voter {
        Some(records[0].approve)
    } else {
        choice_of(records.drop_first(), voter)
    }
}

/// How many records approve.
pub open spec fn yes_count(records: Seq<VoteRecordView>) -> nat
    decreases records.len(),
{
    if records.len() == 0 {
        0
    } else {
        (if records[0].approve {
            1nat
        } else {
            0nat
        }) + yes_count(records.drop_first())
    }
}

/// How many records reject.
pub open spec fn no_count(records: Seq<VoteRecordView>) -> nat
    decreases records.len(),
{
    if records.len() == 0 {
        0
    } else {
        (if records[0].approve {
            0nat
        } else {
            1nat
        }) + no_count(records.drop_first())
    }
}

/// The strict-majority rule: approved exactly when twice the yes-tally
/// exceeds the total. Ties — including the empty tally — are not approved.
pub open spec fn approved_of(records: Seq<VoteRecordView>) -> bool {
    2 * yes_count(records) > records.len()
}

/// Whether the voting window that opened at `start_time` has elapsed by
/// `now`. A clock that moved backwards counts as no elapsed time.
pub open spec fn window_closed(start_time: u64, now: u64) -> bool {
    now > start_time && now - start_time > VOTING_PERIOD_SECONDS
}

/// Seconds of the voting window left at `now`.
pub open spec fn time_remaining(start_time: u64, now: u64) -> u64 {
    if now <= start_time {
        VOTING_PERIOD_SECONDS
    } else if now - start_time < VOTING_PERIOD_SECONDS {
        (VOTING_PERIOD_SECONDS - (now - start_time)) as u64
    } else {
        0
    }
}

/// Records `rec` for its voter: an existing record of the same voter is
/// replaced in place, otherwise the record is appended.
pub open spec fn upsert_vote(records: Seq<VoteRecordView>, rec: VoteRecordView) -> Seq<
    VoteRecordView,
>
    decreases records.len(),
{
    if records.len() == 0 {
        seq![rec]
    } else if records[0].voter == rec.voter {
        seq![rec] + records.drop_first()
    } else {
        seq![records[0]] + upsert_vote(records.drop_first(), rec)
    }
}

/// When the voter already has a record, first at position `i`, the upsert
/// replaces exactly that record.
proof fn lemma_upsert_vote_at(records: Seq<VoteRecordView>, rec: VoteRecordView, i: int)
    requires
        0 <= i < records.len(),
        records[i].voter == rec.voter,
        forall|k: int| 0 <= k < i ==> (#[trigger] records[k]).voter != rec.voter,
    ensures
        upsert_vote(records, rec) == records.update(i, rec),
    decreases i,
{
    if i == 0 {
        assert(upsert_vote(records, rec) =~= records.update(0, rec));
    } else {
        assert(records.drop_first()[i - 1] == records[i]);
        assert(forall|k: int| 0 <= k < i - 1 ==> #[trigger] records.drop_first()[k] == records[k
            + 1]);
        lemma_upsert_vote_at(records.drop_first(), rec, i - 1);
        assert(upsert_vote(records, rec) =~= records.update(i, rec));
    }
}

/// When the voter has no record yet, the upsert appends one.
proof fn lemma_upsert_vote_absent(records: Seq<VoteRecordView>, rec: VoteRecordView)
    requires
        forall|k: int| 0 <= k < records.len() ==> (#[trigger] records[k]).voter != rec.voter,
    ensures
        upsert_vote(records, rec) == records.push(rec),
    decreases records.len(),
{
    if records.len() == 0 {
        assert(upsert_vote(records, rec) =~= records.push(rec));
    } else {
        assert(forall|k: int| 0 <= k < records.len() - 1 ==> #[trigger] records.drop_first()[k]
            == records[k + 1]);
        lemma_upsert_vote_absent(records.drop_first(), rec);
        assert(upsert_vote(records, rec) =~= records.push(rec));
    }
}

/// Law: a voter submitting again overwrites their earlier choice and no
/// other voter's; only the final value counts. The upsert also keeps
/// voters unique.
pub proof fn lemma_upsert_vote(records: Seq<VoteRecordView>, rec: VoteRecordView, v: Seq<u8>)
    requires
        unique_voters(records),
    ensures
        unique_voters(upsert_vote(records, rec)),
        choice_of(upsert_vote(records, rec), v) == (if v == rec.voter {
            Some(rec.approve)
        } else {
            choice_of(records, v)
        }),
    decreases records.len(),
{
    let out = upsert_vote(records, rec);
    if records.len() == 0 {
        assert(out =~= seq![rec]);
        assert(out.drop_first() =~= Seq::<VoteRecordView>::empty());
        if v != rec.voter {
            assert(choice_of(out, v) == choice_of(out.drop_first(), v));
            assert(choice_of(out.drop_first(), v) is None);
        }
    } else if records[0].voter == rec.voter {
        assert(out =~= records.update(0, rec));
        assert(unique_voters(out)) by {
            assert(forall|k: int| 0 <= k < out.len() ==> (#[trigger] out[k]).voter == (
            if k == 0 {
                rec
            } else {
                records[k]
            }).voter);
        }
        assert(out[0] == rec);
        assert(out.drop_first() =~= records.drop_first());
        if v == rec.voter {
            assert(choice_of(out, v) == Some(rec.approve));
        } else {
            assert(choice_of(out, v) == choice_of(records.drop_first(), v));
            assert(choice_of(records, v) == choice_of(records.drop_first(), v));
        }
    } else {
        assert(forall|k: int| 0 <= k < records.len() - 1 ==> #[trigger] records.drop_first()[k]
            == records[k + 1]);
        lemma_upsert_vote(records.drop_first(), rec, v);
        let rest = upsert_vote(records.drop_first(), rec);
        assert(out =~= seq![records[0]] + rest);
        assert(out[0] == records[0]);
        assert(out.drop_first() =~= rest);
        if v == records[0].voter {
            assert(choice_of(out, v) == Some(records[0].approve));
            assert(choice_of(records, v) == Some(records[0].approve));
        } else {
            assert(choice_of(out, v) == choice_of(rest, v));
            assert(choice_of(records, v) == choice_of(records.drop_first(), v));
        }
        assert(unique_voters(out)) by {
            assert forall|i: int, j: int| 0 <= i < j < out.len() implies (
            #[trigger] out[i]).voter != (#[trigger] out[j]).voter by {
                if i == 0 {
                    assert(out[j] == rest[j - 1]);
                    lemma_upsert_vote_membership(records.drop_first(), rec, j - 1);
                } else {
                    assert(out[i] == rest[i - 1] && out[j] == rest[j - 1]);
                }
            }
        }
    }
}

/// Appending a record adds its choice to the tallies.
proof fn lemma_counts_push(s: Seq<VoteRecordView>, x: VoteRecordView)
    ensures
        yes_count(s.push(x)) == yes_count(s) + (if x.approve {
            1nat
        } else {
            0nat
        }),
        no_count(s.push(x)) == no_count(s) + (if x.approve {
            0nat
        } else {
            1nat
        }),
    decreases s.len(),
{
    if s.len() == 0 {
        assert(s.push(x) =~= seq![x]);
        assert(s.push(x).drop_first() =~= Seq::<VoteRecordView>::empty());
        assert(yes_count(s.push(x).drop_first()) == 0);
        assert(no_count(s.push(x).drop_first()) == 0);
    } else {
        assert(s.push(x)[0] == s[0]);
        assert(s.push(x).drop_first() =~= s.drop_first().push(x));
        lemma_counts_push(s.drop_first(), x);
    }
}

/// Every record of an upsert result is either the new record or one of the
/// originals.
proof fn lemma_upsert_vote_membership(records: Seq<VoteRecordView>, rec: VoteRecordView, j: int)
    requires
        0 <= j < upsert_vote(records, rec).len(),
    ensures
        upsert_vote(records, rec)[j] == rec || exists|k: int|
            0 <= k < records.len() && upsert_vote(records, rec)[j] == #[trigger] records[k],
    decreases records.len(),
{
    let out = upsert_vote(records, rec);
    if records.len() == 0 {
        assert(out =~= seq![rec]);
    } else if records[0].voter == rec.voter {
        if j == 0 {
        } else {
            assert(out[j] == records.drop_first()[j - 1]);
            assert(out[j] == records[j]);
        }
    } else {
        if j == 0 {
            assert(out[0] == records[0]);
        } else {
            let rest = upsert_vote(records.drop_first(), rec);
            assert(out[j] == rest[j - 1]);
            lemma_upsert_vote_membership(records.drop_first(), rec, j - 1);
            if rest[j - 1] != rec {
                let k = choose|k: int|
                    0 <= k < records.drop_first().len() && rest[j - 1]
                        == #[trigger] records.drop_first()[k];
                assert(out[j] == records[k + 1]);
            }
        }
    }
}


impl Clone for RuleVote {
    fn clone(&self) -> (r: Self)
        ensures
            r@ == self@,
    {
        let r = RuleVote { records: self.records.clone(), start_time: self.start_time };
        proof {
            assert(r@.records =~= self@.records);
        }
        r
    }
}

/// What a caller sees of one proposal's tally at a moment in time.
#[derive(Clone, Copy, PartialEq, Eq, Structural, Debug)]
pub struct VotingStatus {
    pub yes: usize,
    pub no: usize,
    pub total: usize,
    pub time_remaining_seconds: u64,
}

/// A request to schedule the one-shot finalize callback for a proposal.
#[derive(Clone, Copy, PartialEq, Eq, Structural, Debug)]
pub struct ScheduleFinalize {
    pub rule_id: u64,
    pub delay_seconds: u64,
}

/// The proposal voting state machine: per-rule in-flight vote collection
/// and the finalized-result store.
pub struct RuleVotingEngine {
    rule_votes: Vec<(u64, RuleVote)>,
    rule_results: Vec<(u64, bool)>,
}

/// The mathematical value of a `RuleVotingEngine`.
pub struct EngineView {
    pub votes: Seq<(u64, RuleVoteView)>,
    pub results: Seq<(u64, bool)>,
}

impl View for RuleVotingEngine {
    type V = EngineView;

    closed spec fn view(&self) -> EngineView {
        EngineView {
            votes: self.rule_votes@.map_values(|p: (u64, RuleVote)| (p.0, p.1@)),
            results: self.rule_results@,
        }
    }
}

/// Checks a voter's registration and begins resolving their stake: an
/// unregistered voter is turned away before any relay work, and the
/// neuron-info relay call is produced only when the registry holds no
/// locally cached stake for the voter's neuron — a cached stake needs no
/// relay query at all.
pub fn submit_vote_begin(registry: &NeuronRegistry, voter: &PrincipalId) -> (r: Result<
    (String, Option<RelayCall>),
    GovernanceError,
>)
    ensures
        match find_neuron(registry@, voter@) {
            None => r == Err::<(String, Option<RelayCall>), GovernanceError>(
                GovernanceError::Unauthenticated,
            ),
            Some(nd) => r matches Ok(p) && p.0@ == nd.neuron_id && (match stake_by_neuron_id(
                registry@,
                nd.neuron_id,
            ) {
                Some(_) => p.1 is None,
                None => p.1 matches Some(c) && c@ == (RelayCallView::NeuronInfo {
                    neuron_id: nd.neuron_id,
                }),
            }),
        },
{
    match registry.get_voter_neuron_id(voter) {
        None => Err(GovernanceError::Unauthenticated),
        Some(neuron_id) => {
            let call = if registry.cached_stake(&neuron_id).is_some() {
                None
            } else {
                Some(RelayCall::NeuronInfo { neuron_id: neuron_id.clone() })
            };
            Ok((neuron_id, call))
        },
    }
}

/// Records `rec` for its voter among `records`: a voter who already has a
/// record overwrites it, anyone else is appended.
fn upsert_record(records: &mut Vec<VoteRecord>, rec: VoteRecord)
    ensures
        record_views(final(records)@) == upsert_vote(record_views(old(records)@), rec@),
{
    let ghost old_views = record_views(records@);
    let n = records.len();
    let mut i: usize = 0;
    while i < n
        invariant
            n == records.len(),
            records@ == old(records)@,
            i <= n,
            forall|k: int| 0 <= k < i ==> (#[trigger] records@[k])@.voter != rec@.voter,
        ensures
            n == records.len(),
            records@ == old(records)@,
            i <= n,
            forall|k: int| 0 <= k < i ==> (#[trigger] records@[k])@.voter != rec@.voter,
            i < n ==> records@[i as int]@.voter == rec@.voter,
        decreases n - i,
    {
        if records[i].voter == rec.voter {
            break;
        }
        i += 1;
    }
    if i < n {
        proof {
            assert(old_views[i as int] == records@[i as int]@);
            assert forall|k: int| 0 <= k < i implies (#[trigger] old_views[k]).voter
                != rec@.voter by {
                assert(old_views[k] == records@[k]@);
            }
            lemma_upsert_vote_at(old_views, rec@, i as int);
        }
        let ghost rec_view = rec@;
        records[i] = rec;
        proof {
            assert(record_views(records@) =~= old_views.update(i as int, rec_view));
        }
    } else {
        proof {
            assert forall|k: int| 0 <= k < old_views.len() implies (
            #[trigger] old_views[k]).voter != rec@.voter by {
                assert(old_views[k] == records@[k]@);
            }
            lemma_upsert_vote_absent(old_views, rec@);
        }
        let ghost rec_view = rec@;
        records.push(rec);
        proof {
            assert(record_views(records@) =~= old_views.push(rec_view));
        }
    }
}

/// Counts the yes and no choices among `records`.
fn tally_records(records: &Vec<VoteRecord>) -> (t: (usize, usize))
    ensures
        t.0 == yes_count(record_views(records@)),
        t.1 == no_count(record_views(records@)),
        t.0 + t.1 == records@.len(),
{
    let n = records.len();
    let mut yes: usize = 0;
    let mut no: usize = 0;
    let mut i: usize = 0;
    while i < n
        invariant
            n == records.len(),
            i <= n,
            yes == yes_count(record_views(records@).take(i as int)),
            no == no_count(record_views(records@).take(i as int)),
            yes + no == i,
        decreases n - i,
    {
        let ghost prefix = record_views(records@).take(i as int);
        let ghost next = record_views(records@).take(i + 1);
        proof {
            assert(next =~= prefix.push(record_views(records@)[i as int]));
            lemma_counts_push(prefix, record_views(records@)[i as int]);
            assert(record_views(records@)[i as int] == records@[i as int]@);
        }
        if records[i].approve {
            yes += 1;
        } else {
            no += 1;
        }
        i += 1;
    }
    proof {
        assert(record_views(records@).take(n as int) =~= record_views(records@));
    }
    (yes, no)
}

impl RuleVotingEngine {
    /// Engine invariant: rule ids are unique in both stores, and each
    /// in-flight entry holds at most one record per voter.
    pub open spec fn wf(&self) -> bool {
        &&& assoc_unique(self@.votes)
        &&& assoc_unique(self@.results)
        &&& forall|k: int|
            0 <= k < self@.votes.len() ==> unique_voters((#[trigger] self@.votes[k]).1.records)
    }

    /// The in-flight entry of a proposal, if one is open.
    pub open spec fn spec_entry(&self, rule_id: u64) -> Option<RuleVoteView> {
        assoc_find(self@.votes, rule_id)
    }

    /// The finalized decision of a proposal, if one was recorded.
    pub open spec fn spec_result(&self, rule_id: u64) -> Option<bool> {
        assoc_find(self@.results, rule_id)
    }

    /// An engine with no open proposals and no results.
    pub fn new() -> (e: RuleVotingEngine)
        ensures
            e.wf(),
            e@.votes == Seq::<(u64, RuleVoteView)>::empty(),
            e@.results == Seq::<(u64, bool)>::empty(),
    {
        let e = RuleVotingEngine { rule_votes: Vec::new(), rule_results: Vec::new() };
        proof {
            assert(e@.votes =~= Seq::<(u64, RuleVoteView)>::empty());
        }
        e
    }

    /// Records one authenticated vote. The first vote on a proposal opens
    /// its entry, stamps the current time and asks the driver to schedule
    /// the finalize callback one voting period later. A vote after the
    /// window is rejected with `WindowClosed` and changes nothing. Within
    /// the window the vote overwrites the voter's earlier record, if any.
    /// Results are never touched.
    pub fn submit_vote_record(
        &mut self,
        voter: &PrincipalId,
        neuron_id: String,
        rule_id: u64,
        approve: bool,
        stake: u64,
        now: u64,
    ) -> (r: Result<Option<ScheduleFinalize>, GovernanceError>)
        requires
            old(self).wf(),
        ensures
            final(self).wf(),
            final(self)@.results == old(self)@.results,
            ({
                let rec = (VoteRecordView { voter: voter@, approve, neuron_id: neuron_id@, stake });
                match assoc_find(old(self)@.votes, rule_id) {
                    None => {
                        &&& r == Ok::<Option<ScheduleFinalize>, GovernanceError>(
                            Some(
                                ScheduleFinalize {
                                    rule_id,
                                    delay_seconds: VOTING_PERIOD_SECONDS,
                                },
                            ),
                        )
                        &&& assoc_find(final(self)@.votes, rule_id) == Some(
                            (RuleVoteView { records: seq![rec], start_time: now }),
                        )
                        &&& forall|k: u64| k != rule_id ==> assoc_find(final(self)@.votes, k)
                            == assoc_find(old(self)@.votes, k)
                    },
                    Some(rv) => if window_closed(rv.start_time, now) {
                        &&& r == Err::<Option<ScheduleFinalize>, GovernanceError>(
                            GovernanceError::WindowClosed,
                        )
                        &&& final(self)@ == old(self)@
                    } else {
                        &&& r == Ok::<Option<ScheduleFinalize>, GovernanceError>(None)
                        &&& assoc_find(final(self)@.votes, rule_id) == Some(
                            (RuleVoteView {
                                records: upsert_vote(rv.records, rec),
                                start_time: rv.start_time,
                            }),
                        )
                        &&& forall|k: u64| k != rule_id ==> assoc_find(final(self)@.votes, k)
                            == assoc_find(old(self)@.votes, k)
                    },
                }
            }),
    {
        let ghost old_votes = self@.votes;
        let rec = VoteRecord { voter: voter.clone(), approve, neuron_id, stake };
        let ghost rec_view = rec@;
        let n = self.rule_votes.len();
        let mut i: usize = 0;
        while i < n
            invariant
                n == self.rule_votes.len(),
                i <= n,
                forall|k: int| 0 <= k < i ==> (#[trigger] self.rule_votes@[k]).0 != rule_id,
            ensures
                n == self.rule_votes.len(),
                self == old(self),
                i <= n,
                forall|k: int| 0 <= k < i ==> (#[trigger] self.rule_votes@[k]).0 != rule_id,
                i < n ==> self.rule_votes@[i as int].0 == rule_id,
            decreases n - i,
        {
            if self.rule_votes[i].0 == rule_id {
                break;
            }
            i += 1;
        }
        if i < n {
            proof {
                assert(old_votes[i as int] == (
                    self.rule_votes@[i as int].0,
                    self.rule_votes@[i as int].1@,
                ));
                assert forall|k: int| 0 <= k < i implies (#[trigger] old_votes[k]).0
                    != rule_id by {
                    assert(old_votes[k] == (self.rule_votes@[k].0, self.rule_votes@[k].1@));
                }
                lemma_assoc_find_at(old_votes, i as int);
            }
            let start = self.rule_votes[i].1.start_time;
            if now > start && now - start > VOTING_PERIOD_SECONDS {
                return Err(GovernanceError::WindowClosed);
            }
            let mut entry = self.rule_votes[i].1.clone();
            let ghost old_entry_view = entry@;
            upsert_record(&mut entry.records, rec);
            let ghost new_entry_view = entry@;
            proof {
                lemma_assoc_find_update(
                    old_votes,
                    i as int,
                    (rule_id, new_entry_view),
                    rule_id,
                );
            }
            self.rule_votes[i] = (rule_id, entry);
            proof {
                assert(self@.votes =~= old_votes.update(i as int, (rule_id, new_entry_view)));
                assert forall|k: u64| k != rule_id implies assoc_find(self@.votes, k)
                    == assoc_find(old_votes, k) by {
                    lemma_assoc_find_update(
                        old_votes,
                        i as int,
                        (rule_id, new_entry_view),
                        k,
                    );
                }
                assert(new_entry_view.records == upsert_vote(
                    old_entry_view.records,
                    rec_view,
                ));
                assert(unique_voters(new_entry_view.records)) by {
                    lemma_upsert_vote(old_entry_view.records, rec_view, rec_view.voter);
                }
                assert forall|k: int| 0 <= k < self@.votes.len() implies unique_voters(
                    (#[trigger] self@.votes[k]).1.records,
                ) by {
                    if k != i as int {
                        assert(self@.votes[k] == old_votes[k]);
                    }
                }
            }
            Ok(None)
        } else {
            proof {
                assert forall|k: int| 0 <= k < old_votes.len() implies (
                #[trigger] old_votes[k]).0 != rule_id by {
                    assert(old_votes[k] == (self.rule_votes@[k].0, self.rule_votes@[k].1@));
                }
                lemma_assoc_find_absent(old_votes, rule_id);
            }
            let entry = RuleVote { records: vec![rec], start_time: now };
            let ghost entry_view = entry@;
            proof {
                assert(entry_view.records =~= seq![rec_view]);
                lemma_assoc_find_push(old_votes, (rule_id, entry_view), rule_id);
            }
            self.rule_votes.push((rule_id, entry));
            proof {
                assert(self@.votes =~= old_votes.push((rule_id, entry_view)));
                assert forall|k: u64| k != rule_id implies assoc_find(self@.votes, k)
                    == assoc_find(old_votes, k) by {
                    lemma_assoc_find_push(old_votes, (rule_id, entry_view), k);
                }
                assert(unique_voters(entry_view.records));
                assert forall|k: int| 0 <= k < self@.votes.len() implies unique_voters(
                    (#[trigger] self@.votes[k]).1.records,
                ) by {
                    if k != old_votes.len() {
                        assert(self@.votes[k] == old_votes[k]);
                    }
                }
            }
            Ok(Some(ScheduleFinalize { rule_id, delay_seconds: VOTING_PERIOD_SECONDS }))
        }
    }

    /// Finalizes a proposal when its scheduled callback fires: tallies the
    /// final per-voter choices, records the strict-majority decision, and
    /// hands back one register-vote relay call carrying the first voter's
    /// neuron id. The in-flight entry is retained; a proposal with no open
    /// entry finalizes nothing.
    pub fn process_votes(&mut self, rule_id: u64) -> (r: Option<RelayCall>)
        requires
            old(self).wf(),
        ensures
            final(self).wf(),
            final(self)@.votes == old(self)@.votes,
            match assoc_find(old(self)@.votes, rule_id) {
                None => final(self)@ == old(self)@ && r is None,
                Some(rv) => {
                    &&& assoc_find(final(self)@.results, rule_id) == Some(approved_of(rv.records))
                    &&& forall|k: u64| k != rule_id ==> assoc_find(final(self)@.results, k)
                        == assoc_find(old(self)@.results, k)
                    &&& if rv.records.len() > 0 {
                        r matches Some(c) && c@ == (RelayCallView::RegisterVote {
                            neuron_id: rv.records[0].neuron_id,
                            proposal_id: rule_id,
                            approve: approved_of(rv.records),
                        })
                    } else {
                        r is None
                    }
                },
            },
    {
        let ghost old_votes = self@.votes;
        let ghost old_results = self@.results;
        let n = self.rule_votes.len();
        let mut i: usize = 0;
        while i < n
            invariant
                n == self.rule_votes.len(),
                i <= n,
                forall|k: int| 0 <= k < i ==> (#[trigger] self.rule_votes@[k]).0 != rule_id,
            ensures
                n == self.rule_votes.len(),
                self == old(self),
                i <= n,
                forall|k: int| 0 <= k < i ==> (#[trigger] self.rule_votes@[k]).0 != rule_id,
                i < n ==> self.rule_votes@[i as int].0 == rule_id,
            decreases n - i,
        {
            if self.rule_votes[i].0 == rule_id {
                break;
            }
            i += 1;
        }
        if i == n {
            proof {
                assert forall|k: int| 0 <= k < old_votes.len() implies (
                #[trigger] old_votes[k]).0 != rule_id by {
                    assert(old_votes[k] == (self.rule_votes@[k].0, self.rule_votes@[k].1@));
                }
                lemma_assoc_find_absent(old_votes, rule_id);
            }
            return None;
        }
        proof {
            assert(old_votes[i as int] == (
                self.rule_votes@[i as int].0,
                self.rule_votes@[i as int].1@,
            ));
            assert forall|k: int| 0 <= k < i implies (#[trigger] old_votes[k]).0 != rule_id by {
                assert(old_votes[k] == (self.rule_votes@[k].0, self.rule_votes@[k].1@));
            }
            lemma_assoc_find_at(old_votes, i as int);
        }
        let ghost rv = old_votes[i as int].1;
        let (yes, no) = tally_records(&self.rule_votes[i].1.records);
        let total = self.rule_votes[i].1.records.len();
        let approved = yes > total / 2;
        proof {
            assert(rv.records == record_views(self.rule_votes@[i as int].1.records@));
            assert(approved == approved_of(rv.records)) by {
                assert(total == rv.records.len());
                assert(total == 2 * (total / 2) + (total % 2)) by (nonlinear_arith);
            }
        }
        let action: Option<RelayCall> = if self.rule_votes[i].1.records.len() > 0 {
            let first_neuron = self.rule_votes[i].1.records[0].neuron_id.clone();
            proof {
                assert(rv.records[0] == self.rule_votes@[i as int].1.records@[0]@);
            }
            Some(
                RelayCall::RegisterVote {
                    neuron_id: first_neuron,
                    proposal_id: rule_id,
                    approve: approved,
                },
            )
        } else {
            None
        };
        let m = self.rule_results.len();
        let mut j: usize = 0;
        while j < m
            invariant
                m == self.rule_results.len(),
                j <= m,
                forall|k: int| 0 <= k < j ==> (#[trigger] self.rule_results@[k]).0 != rule_id,
            ensures
                m == self.rule_results.len(),
                self == old(self),
                j <= m,
                forall|k: int| 0 <= k < j ==> (#[trigger] self.rule_results@[k]).0 != rule_id,
                j < m ==> self.rule_results@[j as int].0 == rule_id,
            decreases m - j,
        {
            if self.rule_results[j].0 == rule_id {
                break;
            }
            j += 1;
        }
        if j < m {
            proof {
                lemma_assoc_find_update(
                    old_results,
                    j as int,
                    (rule_id, approved),
                    rule_id,
                );
            }
            self.rule_results[j] = (rule_id, approved);
            proof {
                assert(self@.results =~= old_results.update(j as int, (rule_id, approved)));
                assert forall|k: u64| k != rule_id implies assoc_find(self@.results, k)
                    == assoc_find(old_results, k) by {
                    lemma_assoc_find_update(old_results, j as int, (rule_id, approved), k);
                }
            }
        } else {
            proof {
                lemma_assoc_find_absent(old_results, rule_id);
                lemma_assoc_find_push(old_results, (rule_id, approved), rule_id);
            }
            self.rule_results.push((rule_id, approved));
            proof {
                assert(self@.results =~= old_results.push((rule_id, approved)));
                assert forall|k: u64| k != rule_id implies assoc_find(self@.results, k)
                    == assoc_find(old_results, k) by {
                    lemma_assoc_find_push(old_results, (rule_id, approved), k);
                }
            }
        }
        action
    }

    /// The finalized decision of a proposal: absent before the scheduled
    /// finalize fired, a defined boolean after.
    pub fn get_rule_result(&self, rule_id: u64) -> (r: Option<bool>)
        ensures
            r == self.spec_result(rule_id),
    {
        let m = self.rule_results.len();
        let mut j: usize = 0;
        while j < m
            invariant
                m == self.rule_results.len(),
                j <= m,
                forall|k: int| 0 <= k < j ==> (#[trigger] self.rule_results@[k]).0 != rule_id,
            decreases m - j,
        {
            if self.rule_results[j].0 == rule_id {
                proof {
                    lemma_assoc_find_at(self@.results, j as int);
                }
                return Some(self.rule_results[j].1);
            }
            j += 1;
        }
        proof {
            lemma_assoc_find_absent(self@.results, rule_id);
        }
        None
    }

    /// The running tally and remaining window time of a proposal, if it
    /// has an open entry; computable at any time.
    pub fn get_voting_status(&self, rule_id: u64, now: u64) -> (r: Option<VotingStatus>)
        ensures
            match self.spec_entry(rule_id) {
                None => r is None,
                Some(rv) => r matches Some(st) && st.yes == yes_count(rv.records) && st.no
                    == no_count(rv.records) && st.total == rv.records.len()
                    && st.time_remaining_seconds == time_remaining(rv.start_time, now),
            },
    {
        let n = self.rule_votes.len();
        let mut i: usize = 0;
        while i < n
            invariant
                n == self.rule_votes.len(),
                i <= n,
                forall|k: int| 0 <= k < i ==> (#[trigger] self.rule_votes@[k]).0 != rule_id,
            decreases n - i,
        {
            if self.rule_votes[i].0 == rule_id {
                proof {
                    assert(self@.votes[i as int] == (
                        self.rule_votes@[i as int].0,
                        self.rule_votes@[i as int].1@,
                    ));
                    assert forall|k: int| 0 <= k < i implies (#[trigger] self@.votes[k]).0
                        != rule_id by {
                        assert(self@.votes[k] == (
                            self.rule_votes@[k].0,
                            self.rule_votes@[k].1@,
                        ));
                    }
                    lemma_assoc_find_at(self@.votes, i as int);
                }
                let (yes, no) = tally_records(&self.rule_votes[i].1.records);
                let total = self.rule_votes[i].1.records.len();
                let start = self.rule_votes[i].1.start_time;
                let time_remaining_seconds = if now <= start {
                    VOTING_PERIOD_SECONDS
                } else if now - start < VOTING_PERIOD_SECONDS {
                    VOTING_PERIOD_SECONDS - (now - start)
                } else {
                    0
                };
                return Some(VotingStatus { yes, no, total, time_remaining_seconds });
            }
            i += 1;
        }
        proof {
            assert forall|k: int| 0 <= k < self@.votes.len() implies (
            #[trigger] self@.votes[k]).0 != rule_id by {
                assert(self@.votes[k] == (self.rule_votes@[k].0, self.rule_votes@[k].1@));
            }
            lemma_assoc_find_absent(self@.votes, rule_id);
        }
        None
    }
}


/// The record store left by a sequence of submissions, each recorded with
/// `upsert_vote` in order.
pub open spec fn apply_submissions(
    records: Seq<VoteRecordView>,
    subs: Seq<VoteRecordView>,
) -> Seq<VoteRecordView>
    decreases subs.len(),
{
    if subs.len() == 0 {
        records
    } else {
        upsert_vote(apply_submissions(records, subs.drop_last()), subs.last())
    }
}

/// The choice of `voter`'s last submission among `subs`, if any.
pub open spec fn last_choice(subs: Seq<VoteRecordView>, voter: Seq<u8>) -> Option<bool>
    decreases subs.len(),
{
    if subs.len() == 0 {
        None
    } else if subs.last().voter == voter {
        Some(subs.last().approve)
    } else {
        last_choice(subs.drop_last(), voter)
    }
}

/// A voter with no record among `records` has no choice there.
proof fn lemma_choice_absent(records: Seq<VoteRecordView>, v: Seq<u8>)
    requires
        forall|k: int| 0 <= k < records.len() ==> (#[trigger] records[k]).voter != v,
    ensures
        choice_of(records, v) is None,
    decreases records.len(),
{
    if records.len() > 0 {
        assert(forall|k: int| 0 <= k < records.len() - 1 ==> #[trigger] records.drop_first()[k]
            == records[k + 1]);
        lemma_choice_absent(records.drop_first(), v);
    }
}

/// Law: after any sequence of submissions, the record store holds one
/// record per voter, and each voter's recorded choice is exactly the last
/// one they submitted — a voter submitting twice overwrites their earlier
/// choice, and nobody else's.
pub proof fn lemma_last_submission_wins(
    records: Seq<VoteRecordView>,
    subs: Seq<VoteRecordView>,
    v: Seq<u8>,
)
    requires
        unique_voters(records),
    ensures
        unique_voters(apply_submissions(records, subs)),
        choice_of(apply_submissions(records, subs), v) == (match last_choice(subs, v) {
            Some(b) => Some(b),
            None => choice_of(records, v),
        }),
    decreases subs.len(),
{
    if subs.len() > 0 {
        lemma_last_submission_wins(records, subs.drop_last(), v);
        lemma_upsert_vote(apply_submissions(records, subs.drop_last()), subs.last(), v);
    }
}

/// The set of voters whose recorded choice is `approve`.
pub open spec fn voters_choosing(records: Seq<VoteRecordView>, approve: bool) -> Set<Seq<u8>> {
    Set::new(|v: Seq<u8>| choice_of(records, v) == Some(approve))
}

/// Law: with one record per voter, the yes- and no-tallies are exactly the
/// numbers of voters whose recorded choice is yes and no — each voter is
/// counted once.
pub proof fn lemma_tally_counts_voters(records: Seq<VoteRecordView>)
    requires
        unique_voters(records),
    ensures
        voters_choosing(records, true).finite(),
        voters_choosing(records, true).len() == yes_count(records),
        voters_choosing(records, false).finite(),
        voters_choosing(records, false).len() == no_count(records),
    decreases records.len(),
{
    broadcast use vstd::set::group_set_axioms;

    if records.len() == 0 {
        assert(voters_choosing(records, true) =~= Set::<Seq<u8>>::empty());
        assert(voters_choosing(records, false) =~= Set::<Seq<u8>>::empty());
    } else {
        let rest = records.drop_first();
        let v0 = records[0].voter;
        assert(forall|k: int| 0 <= k < records.len() - 1 ==> #[trigger] rest[k] == records[k
            + 1]);
        lemma_tally_counts_voters(rest);
        assert(forall|k: int| 0 <= k < rest.len() ==> (#[trigger] rest[k]).voter != v0);
        lemma_choice_absent(rest, v0);
        assert(!voters_choosing(rest, true).contains(v0));
        assert(!voters_choosing(rest, false).contains(v0));
        if records[0].approve {
            assert(voters_choosing(records, true) =~= voters_choosing(rest, true).insert(v0));
            assert(voters_choosing(records, false) =~= voters_choosing(rest, false));
        } else {
            assert(voters_choosing(records, true) =~= voters_choosing(rest, true));
            assert(voters_choosing(records, false) =~= voters_choosing(rest, false).insert(
                v0,
            ));
        }
    }
}

/// Law: the yes- and no-tallies partition the records, and approval is a
/// strict majority — approved exactly when more records say yes than no.
/// A tie is not approved; in particular an empty tally is not approved.
pub proof fn lemma_strict_majority(records: Seq<VoteRecordView>)
    ensures
        yes_count(records) + no_count(records) == records.len(),
        approved_of(records) <==> yes_count(records) > no_count(records),
        yes_count(records) == no_count(records) ==> !approved_of(records),
        records.len() == 0 ==> !approved_of(records),
    decreases records.len(),
{
    if records.len() > 0 {
        lemma_strict_majority(records.drop_first());
    }
}

/// Law: for any sequence of submissions on one freshly opened proposal,
/// the finalized tally counts one entry per voter — each voter's last
/// submitted choice — never the number of submit calls; and the decision
/// approves exactly a strict majority of those final choices.
pub proof fn lemma_finalize_counts_last_votes(subs: Seq<VoteRecordView>)
    ensures
        ({
            let fin = apply_submissions(Seq::<VoteRecordView>::empty(), subs);
            &&& unique_voters(fin)
            &&& forall|v: Seq<u8>| #![auto] choice_of(fin, v) == last_choice(subs, v)
            &&& yes_count(fin) == voters_choosing(fin, true).len()
            &&& no_count(fin) == voters_choosing(fin, false).len()
            &&& (approved_of(fin) <==> yes_count(fin) > no_count(fin))
        }),
{
    let fin = apply_submissions(Seq::<VoteRecordView>::empty(), subs);
    assert(unique_voters(Seq::<VoteRecordView>::empty()));
    assert forall|v: Seq<u8>| #![auto] choice_of(fin, v) == last_choice(subs, v) by {
        lemma_last_submission_wins(Seq::<VoteRecordView>::empty(), subs, v);
    }
    lemma_last_submission_wins(Seq::<VoteRecordView>::empty(), subs, Seq::<u8>::empty());
    lemma_tally_counts_voters(fin);
    lemma_strict_majority(fin);
}

} // verus!
