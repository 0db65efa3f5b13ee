//! The neuron registry: at most one staked-neuron record per controlling
//! identity, and the create-neuron workflow.
//!
//! Creating a neuron is a three-step exchange with the governance relay:
//! validation produces the stake call, the stake response yields the neuron
//! id and the dissolve-delay call, and the dissolve-delay response commits
//! the record. The registry itself never performs a relay call: the driver
//! does, and hands each response back to the next step.

use vstd::prelude::*;
use vstd::string::StringSliceAdditionalSpecFns;
use vstd::utf8::encode_utf8;
use crate::assoc::{
    assoc_find, assoc_unique, lemma_assoc_find_absent, lemma_assoc_find_at,
    lemma_assoc_find_push, lemma_assoc_find_update,
};
use crate::errors::{GovernanceError, RelayFault, ValidationError};
use crate::principal::PrincipalId;
use crate::relay::{parse_neuron_id_from_response, parsed_neuron_id, RelayCall, RelayCallView};

verus! {

/// Minimum stake, in thousandths of a token: one whole token.
pub const MIN_STAKE_MILLI: u64 = 1000;

/// Thousandths of a token per whole token; recorded stakes are whole tokens.
pub const STAKE_MILLI_PER_TOKEN: u64 = 1000;

/// Minimum dissolve delay: about six months, in seconds.
pub const MIN_DISSOLVE_DELAY_SECONDS: u64 = 6 * 30 * 24 * 60 * 60;

/// The stake assumed when a neuron is unknown locally but the relay's
/// response mentions a stake. A best-effort placeholder, not a verified
/// ledger read.
pub const PLACEHOLDER_STAKE: u64 = 2;

/// One staked neuron, cached locally for its controlling identity.
pub struct NeuronData {
    pub neuron_id: String,
    pub controller: PrincipalId,
    pub stake_amount: u64,
    pub created_at: u64,
}

/// The mathematical value of a `NeuronData`.
pub struct NeuronDataView {
    pub neuron_id: Seq<char>,
    pub controller: Seq<u8>,
    pub stake_amount: u64,
    pub created_at: u64,
}

impl View for NeuronData {
    type V = NeuronDataView;

    open spec fn view(&self) -> NeuronDataView {
        NeuronDataView {
            neuron_id: self.neuron_id@,
            controller: self.controller@,
            stake_amount: self.stake_amount,
            created_at: self.created_at,
        }
    }
}

impl Clone for NeuronData {
    fn clone(&self) -> (r: Self)
        ensures
            r@ == self@,
    {
        NeuronData {
            neuron_id: self.neuron_id.clone(),
            controller: self.controller.clone(),
            stake_amount: self.stake_amount,
            created_at: self.created_at,
        }
    }
}

/// The views of a sequence of neuron records.
pub open spec fn neuron_views(s: Seq<NeuronData>) -> Seq<NeuronDataView> {
    s.map_values(|n: NeuronData| n@)
}

/// The registry's contents as an association sequence keyed by controller.
pub open spec fn by_controller(s: Seq<NeuronDataView>) -> Seq<(Seq<u8>, NeuronDataView)> {
    s.map_values(|n: NeuronDataView| (n.controller, n))
}

/// The neuron record of `controller`, if any.
pub open spec fn find_neuron(s: Seq<NeuronDataView>, controller: Seq<u8>) -> Option<
    NeuronDataView,
> {
    assoc_find(by_controller(s), controller)
}

/// The registry's contents as an association sequence keyed by neuron id.
pub open spec fn by_neuron_id(s: Seq<NeuronDataView>) -> Seq<(Seq<char>, u64)> {
    s.map_values(|n: NeuronDataView| (n.neuron_id, n.stake_amount))
}

/// The locally cached stake of the first record with this neuron id.
pub open spec fn stake_by_neuron_id(s: Seq<NeuronDataView>, neuron_id: Seq<char>) -> Option<u64> {
    assoc_find(by_neuron_id(s), neuron_id)
}

/// `needle` occurs as a contiguous subsequence of `haystack`.
pub open spec fn contains_subseq(haystack: Seq<u8>, needle: Seq<u8>) -> bool {
    exists|i: int|
        0 <= i && i + needle.len() <= haystack.len() && #[trigger] haystack.subrange(
            i,
            i + needle.len(),
        ) == needle
}

/// Whether `needle`'s bytes occur contiguously within `haystack`'s bytes.
pub fn str_contains(haystack: &str, needle: &str) -> (r: bool)
    ensures
        r == contains_subseq(haystack.spec_bytes(), needle.spec_bytes()),
{
    let h = haystack.as_bytes();
    let n = needle.as_bytes();
    let hl = h.len();
    let nl = n.len();
    if nl > hl {
        return false;
    }
    if nl == 0 {
        proof {
            let witness: int = 0;
            assert(h@.subrange(witness, witness + n@.len()) =~= n@);
            assert(contains_subseq(h@, n@));
        }
        return true;
    }
    let mut i: usize = 0;
    while i <= hl - nl
        invariant
            h@ == haystack.spec_bytes(),
            n@ == needle.spec_bytes(),
            hl == h@.len(),
            nl == n@.len(),
            0 < nl <= hl,
            i <= hl - nl + 1,
            forall|s: int| 0 <= s < i ==> #[trigger] h@.subrange(s, s + n@.len()) != n@,
        ensures
            forall|s: int| 0 <= s < i ==> #[trigger] h@.subrange(s, s + n@.len()) != n@,
            i > hl - nl,
        decreases hl - i,
    {
        if bytes_match_at(h, n, i) {
            proof {
                let witness = i as int;
                assert(0 <= witness && witness + n@.len() <= h@.len() && h@.subrange(
                    witness,
                    witness + n@.len(),
                ) == n@);
                assert(contains_subseq(h@, n@));
            }
            return true;
        }
        i += 1;
    }
    proof {
        assert(!contains_subseq(h@, n@)) by {
            assert forall|s: int| 0 <= s && s + n@.len() <= h@.len() implies #[trigger] h@.subrange(
                s,
                s + n@.len(),
            ) != n@ by {
                assert(s < i);
            }
        }
    }
    false
}

/// Whether `n` matches `h` starting at byte position `i`.
fn bytes_match_at(h: &[u8], n: &[u8], i: usize) -> (r: bool)
    requires
        i + n@.len() <= h@.len(),
    ensures
        r == (h@.subrange(i as int, i as int + n@.len()) == n@),
{
    let hl = h.len();
    let nl = n.len();
    let mut j: usize = 0;
    while j < nl
        invariant
            hl == h@.len(),
            nl == n@.len(),
            i + nl <= hl,
            j <= nl,
            forall|k: int| 0 <= k < j ==> h@[i + k] == n@[k],
        decreases nl - j,
    {
        if h[i + j] != n[j] {
            proof {
                assert(h@.subrange(i as int, i as int + n@.len()) != n@) by {
                    assert(h@.subrange(i as int, i as int + n@.len())[j as int] == h@[i + j]);
                }
            }
            return false;
        }
        j += 1;
    }
    proof {
        assert(h@.subrange(i as int, i as int + n@.len()) =~= n@);
    }
    true
}

/// Validates a create-neuron request and, when it is acceptable, hands back
/// the stake call to perform. A rejected request performs no relay call at
/// all: no call value is ever produced for it.
pub fn create_neuron_request(
    controller: &PrincipalId,
    stake_milli: u64,
    dissolve_delay_seconds: u64,
) -> (r: Result<RelayCall, GovernanceError>)
    ensures
        match r {
            Ok(c) => {
                &&& stake_milli >= MIN_STAKE_MILLI
                &&& dissolve_delay_seconds >= MIN_DISSOLVE_DELAY_SECONDS
                &&& c@ == (RelayCallView::Stake { controller: controller@, stake_milli })
            },
            Err(e) => {
                ||| (stake_milli < MIN_STAKE_MILLI && e == GovernanceError::Validation(
                    ValidationError::InsufficientStake,
                ))
                ||| (stake_milli >= MIN_STAKE_MILLI && dissolve_delay_seconds
                    < MIN_DISSOLVE_DELAY_SECONDS && e == GovernanceError::Validation(
                    ValidationError::DissolveDelayTooShort,
                ))
            },
        },
{
    if stake_milli < MIN_STAKE_MILLI {
        return Err(GovernanceError::Validation(ValidationError::InsufficientStake));
    }
    if dissolve_delay_seconds < MIN_DISSOLVE_DELAY_SECONDS {
        return Err(GovernanceError::Validation(ValidationError::DissolveDelayTooShort));
    }
    Ok(RelayCall::Stake { controller: controller.clone(), stake_milli })
}

/// Consumes the stake call's response: a tool failure is surfaced verbatim,
/// otherwise the created neuron's id is parsed out of the response and the
/// dissolve-delay call to perform next is handed back beside it.
pub fn create_neuron_staked(
    stake_response: Result<String, String>,
    dissolve_delay_seconds: u64,
) -> (r: Result<(String, RelayCall), GovernanceError>)
    ensures
        match stake_response {
            Err(m) => r == Err::<(String, RelayCall), GovernanceError>(
                GovernanceError::Relay(RelayFault::Tool(m)),
            ),
            Ok(resp) => match parsed_neuron_id(resp@) {
                Some(id) => r matches Ok(p) && p.0@ == id && p.1@
                    == (RelayCallView::SetDissolveDelay {
                    neuron_id: id,
                    dissolve_delay_seconds,
                }),
                None => r == Err::<(String, RelayCall), GovernanceError>(
                    GovernanceError::Relay(
                        if crate::relay::json_document_valid(resp@) {
                            RelayFault::MissingNeuronId
                        } else {
                            RelayFault::InvalidJson
                        },
                    ),
                ),
            },
        },
{
    match stake_response {
        Err(m) => Err(GovernanceError::Relay(RelayFault::Tool(m))),
        Ok(resp) => match parse_neuron_id_from_response(&resp) {
            Err(e) => Err(e),
            Ok(neuron_id) => {
                let call = RelayCall::SetDissolveDelay {
                    neuron_id: neuron_id.clone(),
                    dissolve_delay_seconds,
                };
                Ok((neuron_id, call))
            },
        },
    }
}

/// The neuron registry.
pub struct NeuronRegistry {
    neurons: Vec<NeuronData>,
}

impl View for NeuronRegistry {
    type V = Seq<NeuronDataView>;

    closed spec fn view(&self) -> Seq<NeuronDataView> {
        neuron_views(self.neurons@)
    }
}

impl NeuronRegistry {
    /// Registry invariant: controllers are unique.
    pub open spec fn wf(&self) -> bool {
        assoc_unique(by_controller(self@))
    }

    /// An empty registry.
    pub fn new() -> (r: NeuronRegistry)
        ensures
            r.wf(),
            r@ == Seq::<NeuronDataView>::empty(),
    {
        let r = NeuronRegistry { neurons: Vec::new() };
        proof {
            assert(r@ =~= Seq::<NeuronDataView>::empty());
        }
        r
    }

    /// Consumes the dissolve-delay call's response: a tool failure is
    /// surfaced verbatim and nothing is recorded — the stake already placed
    /// on the ledger is not rolled back. On success the neuron is recorded
    /// for its controller, replacing any prior record, with the stake
    /// truncated to whole tokens.
    pub fn create_neuron_finish(
        &mut self,
        controller: &PrincipalId,
        neuron_id: String,
        stake_milli: u64,
        now: u64,
        dissolve_response: Result<String, String>,
    ) -> (r: Result<String, GovernanceError>)
        requires
            old(self).wf(),
        ensures
            final(self).wf(),
            match dissolve_response {
                Err(m) => r == Err::<String, GovernanceError>(
                    GovernanceError::Relay(RelayFault::Tool(m)),
                ) && final(self)@ == old(self)@,
                Ok(_) => {
                    &&& r matches Ok(id) && id@ == neuron_id@
                    &&& find_neuron(final(self)@, controller@) == Some(
                        (NeuronDataView {
                            neuron_id: neuron_id@,
                            controller: controller@,
                            stake_amount: stake_milli / STAKE_MILLI_PER_TOKEN,
                            created_at: now,
                        }),
                    )
                    &&& forall|c: Seq<u8>| c != controller@ ==> find_neuron(final(self)@, c)
                        == find_neuron(old(self)@, c)
                },
            },
    {
        if let Err(m) = dissolve_response {
            return Err(GovernanceError::Relay(RelayFault::Tool(m)));
        }
        let returned_id = neuron_id.clone();
        let record = NeuronData {
            neuron_id,
            controller: controller.clone(),
            stake_amount: stake_milli / STAKE_MILLI_PER_TOKEN,
            created_at: now,
        };
        let ghost old_view = self@;
        let ghost rec_view = record@;
        let n = self.neurons.len();
        let mut i: usize = 0;
        while i < n
            invariant
                n == self.neurons.len(),
                i <= n,
                forall|k: int| 0 <= k < i ==> (#[trigger] self.neurons@[k])@.controller
                    != controller@,
            ensures
                n == self.neurons.len(),
                i <= n,
                forall|k: int| 0 <= k < i ==> (#[trigger] self.neurons@[k])@.controller
                    != controller@,
                i < n ==> self.neurons@[i as int]@.controller == controller@,
            decreases n - i,
        {
            if self.neurons[i].controller == *controller {
                break;
            }
            i += 1;
        }
        if i < n {
            proof {
                assert(by_controller(old_view)[i as int] == (
                    old_view[i as int].controller,
                    old_view[i as int],
                ));
                lemma_assoc_find_update(
                    by_controller(old_view),
                    i as int,
                    (rec_view.controller, rec_view),
                    rec_view.controller,
                );
            }
            self.neurons[i] = record;
            proof {
                assert(by_controller(self@) =~= by_controller(old_view).update(
                    i as int,
                    (rec_view.controller, rec_view),
                ));
                assert forall|c: Seq<u8>| c != controller@ implies find_neuron(self@, c)
                    == find_neuron(old_view, c) by {
                    lemma_assoc_find_update(
                        by_controller(old_view),
                        i as int,
                        (rec_view.controller, rec_view),
                        c,
                    );
                }
            }
        } else {
            proof {
                assert forall|k: int| 0 <= k < by_controller(old_view).len() implies (
                #[trigger] by_controller(old_view)[k]).0 != controller@ by {
                    assert(by_controller(old_view)[k] == (
                        old_view[k].controller,
                        old_view[k],
                    ));
                }
                lemma_assoc_find_absent(by_controller(old_view), controller@);
                lemma_assoc_find_push(
                    by_controller(old_view),
                    (rec_view.controller, rec_view),
                    rec_view.controller,
                );
            }
            self.neurons.push(record);
            proof {
                assert(by_controller(self@) =~= by_controller(old_view).push(
                    (rec_view.controller, rec_view),
                ));
                assert forall|c: Seq<u8>| c != controller@ implies find_neuron(self@, c)
                    == find_neuron(old_view, c) by {
                    lemma_assoc_find_push(
                        by_controller(old_view),
                        (rec_view.controller, rec_view),
                        c,
                    );
                }
            }
        }
        Ok(returned_id)
    }

    /// The locally cached stake of the first registry record with this
    /// neuron id, if any.
    pub fn cached_stake(&self, neuron_id: &String) -> (r: Option<u64>)
        ensures
            r == stake_by_neuron_id(self@, neuron_id@),
    {
        let n = self.neurons.len();
        let mut i: usize = 0;
        while i < n
            invariant
                n == self.neurons.len(),
                i <= n,
                forall|k: int| 0 <= k < i ==> (#[trigger] self.neurons@[k])@.neuron_id
                    != neuron_id@,
            decreases n - i,
        {
            if self.neurons[i].neuron_id == *neuron_id {
                proof {
                    assert(self@[i as int] == self.neurons@[i as int]@);
                    assert(self@[i as int].neuron_id == neuron_id@);
                    assert(by_neuron_id(self@)[i as int] == (
                        self@[i as int].neuron_id,
                        self@[i as int].stake_amount,
                    ));
                    assert forall|k: int| 0 <= k < i implies (
                    #[trigger] by_neuron_id(self@)[k]).0 != by_neuron_id(self@)[i as int].0 by {
                        assert(self@[k] == self.neurons@[k]@);
                        assert(by_neuron_id(self@)[k] == (
                            self@[k].neuron_id,
                            self@[k].stake_amount,
                        ));
                    }
                    lemma_assoc_find_at(by_neuron_id(self@), i as int);
                    assert(stake_by_neuron_id(self@, neuron_id@) == Some(
                        self@[i as int].stake_amount,
                    ));
                }
                return Some(self.neurons[i].stake_amount);
            }
            i += 1;
        }
        proof {
            assert forall|k: int| 0 <= k < by_neuron_id(self@).len() implies (
            #[trigger] by_neuron_id(self@)[k]).0 != neuron_id@ by {
                assert(by_neuron_id(self@)[k] == (
                    self@[k].neuron_id,
                    self@[k].stake_amount,
                ));
            }
            lemma_assoc_find_absent(by_neuron_id(self@), neuron_id@);
        }
        None
    }

    /// Resolves a neuron's stake, preferring the locally cached record for
    /// the neuron id: a cached stake wins whatever the relay's neuron-info
    /// response says, a tool failure included. Only when no local record
    /// matches is the response consulted: a tool failure is surfaced
    /// verbatim, a response that mentions a stake yields the placeholder
    /// stake, and any other response is a relay fault.
    pub fn get_neuron_stake(&self, neuron_id: &String, info_response: Result<String, String>) -> (r:
        Result<u64, GovernanceError>)
        ensures
            match stake_by_neuron_id(self@, neuron_id@) {
                Some(stake) => r == Ok::<u64, GovernanceError>(stake),
                None => match info_response {
                    Err(m) => r == Err::<u64, GovernanceError>(
                        GovernanceError::Relay(RelayFault::Tool(m)),
                    ),
                    Ok(resp) => if contains_subseq(encode_utf8(resp@), encode_utf8("stake"@)) {
                        r == Ok::<u64, GovernanceError>(PLACEHOLDER_STAKE)
                    } else {
                        r == Err::<u64, GovernanceError>(
                            GovernanceError::Relay(RelayFault::NoStakeInfo),
                        )
                    },
                },
            },
    {
        if let Some(stake) = self.cached_stake(neuron_id) {
            return Ok(stake);
        }
        match info_response {
            Err(m) => Err(GovernanceError::Relay(RelayFault::Tool(m))),
            Ok(resp) => {
                if str_contains(resp.as_str(), "stake") {
                    Ok(PLACEHOLDER_STAKE)
                } else {
                    Err(GovernanceError::Relay(RelayFault::NoStakeInfo))
                }
            },
        }
    }

    /// Whether this identity controls a registered neuron.
    pub fn has_registered_neuron(&self, voter: &PrincipalId) -> (r: bool)
        ensures
            r == (find_neuron(self@, voter@) is Some),
    {
        self.get_voter_neuron_id(voter).is_some()
    }

    /// The neuron id controlled by this identity, if any.
    pub fn get_voter_neuron_id(&self, voter: &PrincipalId) -> (r: Option<String>)
        ensures
            match find_neuron(self@, voter@) {
                Some(nd) => r matches Some(id) && id@ == nd.neuron_id,
                None => r is None,
            },
    {
        let n = self.neurons.len();
        let mut i: usize = 0;
        while i < n
            invariant
                n == self.neurons.len(),
                i <= n,
                forall|k: int| 0 <= k < i ==> (#[trigger] self.neurons@[k])@.controller
                    != voter@,
            decreases n - i,
        {
            if self.neurons[i].controller == *voter {
                proof {
                    assert(by_controller(self@)[i as int] == (
                        self@[i as int].controller,
                        self@[i as int],
                    ));
                    lemma_assoc_find_at(by_controller(self@), i as int);
                }
                return Some(self.neurons[i].neuron_id.clone());
            }
            i += 1;
        }
        proof {
            assert forall|k: int| 0 <= k < by_controller(self@).len() implies (
            #[trigger] by_controller(self@)[k]).0 != voter@ by {
                assert(by_controller(self@)[k] == (self@[k].controller, self@[k]));
            }
            lemma_assoc_find_absent(by_controller(self@), voter@);
        }
        None
    }

    /// The full cached record of this identity's neuron, if any.
    pub fn get_voter_neuron_info(&self, voter: &PrincipalId) -> (r: Option<NeuronData>)
        ensures
            match find_neuron(self@, voter@) {
                Some(nd) => r matches Some(d) && d@ == nd,
                None => r is None,
            },
    {
        let n = self.neurons.len();
        let mut i: usize = 0;
        while i < n
            invariant
                n == self.neurons.len(),
                i <= n,
                forall|k: int| 0 <= k < i ==> (#[trigger] self.neurons@[k])@.controller
                    != voter@,
            decreases n - i,
        {
            if self.neurons[i].controller == *voter {
                proof {
                    assert(by_controller(self@)[i as int] == (
                        self@[i as int].controller,
                        self@[i as int],
                    ));
                    lemma_assoc_find_at(by_controller(self@), i as int);
                }
                return Some(self.neurons[i].clone());
            }
            i += 1;
        }
        proof {
            assert forall|k: int| 0 <= k < by_controller(self@).len() implies (
            #[trigger] by_controller(self@)[k]).0 != voter@ by {
                assert(by_controller(self@)[k] == (self@[k].controller, self@[k]));
            }
            lemma_assoc_find_absent(by_controller(self@), voter@);
        }
        None
    }

    /// Every registered neuron, in registry order.
    pub fn list_registered_neurons(&self) -> (r: Vec<NeuronData>)
        ensures
            neuron_views(r@) == self@,
    {
        let n = self.neurons.len();
        let mut out: Vec<NeuronData> = Vec::new();
        let mut i: usize = 0;
        while i < n
            invariant
                n == self.neurons.len(),
                i <= n,
                out@.len() == i,
                forall|k: int| 0 <= k < i ==> (#[trigger] out@[k])@ == self@[k],
            decreases n - i,
        {
            out.push(self.neurons[i].clone());
            i += 1;
        }
        proof {
            assert(neuron_views(out@) =~= self@);
        }
        out
    }
}

} // verus!
