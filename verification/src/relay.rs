//! The governance relay boundary.
//!
//! Ledger-affecting operations (staking, dissolve delays, vote
//! registration, neuron info) are performed by an out-of-process tool. The
//! engine never invokes that tool itself: it hands a [`RelayCall`] value to
//! its driver and takes the tool's textual response back as an argument.
//!
//! This module also models the filesystem discipline of one tool
//! invocation — materialize a request artifact, submit it, remove it — and
//! parses the tool's JSON responses.

use vstd::prelude::*;
use crate::errors::{GovernanceError, RelayFault};
use crate::principal::PrincipalId;

verus! {

/// One ledger-affecting operation for the driver to perform.
pub enum RelayCall {
    /// Stake `stake_milli` thousandths of a token for `controller`.
    Stake { controller: PrincipalId, stake_milli: u64 },
    /// Set the dissolve delay of an existing neuron.
    SetDissolveDelay { neuron_id: String, dissolve_delay_seconds: u64 },
    /// Register a finalized decision on the settlement ledger.
    RegisterVote { neuron_id: String, proposal_id: u64, approve: bool },
    /// Fetch a neuron's ledger record.
    NeuronInfo { neuron_id: String },
}

/// The mathematical value of a `RelayCall`.
pub enum RelayCallView {
    Stake { controller: Seq<u8>, stake_milli: u64 },
    SetDissolveDelay { neuron_id: Seq<char>, dissolve_delay_seconds: u64 },
    RegisterVote { neuron_id: Seq<char>, proposal_id: u64, approve: bool },
    NeuronInfo { neuron_id: Seq<char> },
}

impl View for RelayCall {
    type V = RelayCallView;

    open spec fn view(&self) -> RelayCallView {
        match self {
            RelayCall::Stake { controller, stake_milli } => RelayCallView::Stake {
                controller: controller@,
                stake_milli: *stake_milli,
            },
            RelayCall::SetDissolveDelay { neuron_id, dissolve_delay_seconds } =>
                RelayCallView::SetDissolveDelay {
                neuron_id: neuron_id@,
                dissolve_delay_seconds: *dissolve_delay_seconds,
            },
            RelayCall::RegisterVote { neuron_id, proposal_id, approve } =>
                RelayCallView::RegisterVote {
                neuron_id: neuron_id@,
                proposal_id: *proposal_id,
                approve: *approve,
            },
            RelayCall::NeuronInfo { neuron_id } => RelayCallView::NeuronInfo {
                neuron_id: neuron_id@,
            },
        }
    }
}

/// One filesystem or process action of a relay invocation.
pub enum RelayStep {
    /// Write the request artifact.
    Materialize { file: String },
    /// Submit the artifact to the tool.
    Submit { file: String },
    /// Delete the artifact.
    Remove { file: String },
}

/// The mathematical value of a `RelayStep`.
pub enum RelayStepView {
    Materialize { file: Seq<char> },
    Submit { file: Seq<char> },
    Remove { file: Seq<char> },
}

impl View for RelayStep {
    type V = RelayStepView;

    open spec fn view(&self) -> RelayStepView {
        match self {
            RelayStep::Materialize { file } => RelayStepView::Materialize { file: file@ },
            RelayStep::Submit { file } => RelayStepView::Submit { file: file@ },
            RelayStep::Remove { file } => RelayStepView::Remove { file: file@ },
        }
    }
}

/// The views of a sequence of relay steps.
pub open spec fn relay_step_views(s: Seq<RelayStep>) -> Seq<RelayStepView> {
    s.map_values(|step: RelayStep| step@)
}

/// The full action trace of one relay invocation: the request artifact is
/// materialized; if and only if that succeeded, the artifact is submitted
/// and then removed. The trace does not depend on the submission's outcome:
/// the artifact is removed whether the submission succeeded or failed.
pub open spec fn relay_trace(file: Seq<char>, materialize_ok: bool) -> Seq<RelayStepView> {
    if materialize_ok {
        seq![
            RelayStepView::Materialize { file },
            RelayStepView::Submit { file },
            RelayStepView::Remove { file },
        ]
    } else {
        seq![RelayStepView::Materialize { file }]
    }
}

/// The actions still to perform after the materialize attempt of a relay
/// invocation came back: submit and then remove when the artifact exists,
/// nothing when it was never created.
pub fn relay_follow_up(file: &String, materialize_ok: bool) -> (steps: Vec<RelayStep>)
    ensures
        relay_step_views(steps@) == relay_trace(file@, materialize_ok).drop_first(),
{
    let mut steps: Vec<RelayStep> = Vec::new();
    if materialize_ok {
        steps.push(RelayStep::Submit { file: file.clone() });
        steps.push(RelayStep::Remove { file: file.clone() });
    }
    proof {
        assert(relay_step_views(steps@) =~= relay_trace(file@, materialize_ok).drop_first());
    }
    steps
}

/// How many times `trace` materializes the artifact `file`.
pub open spec fn count_materialize(trace: Seq<RelayStepView>, file: Seq<char>) -> nat
    decreases trace.len(),
{
    if trace.len() == 0 {
        0
    } else {
        (if trace[0] == (RelayStepView::Materialize { file }) {
            1nat
        } else {
            0nat
        }) + count_materialize(trace.drop_first(), file)
    }
}

/// How many times `trace` removes the artifact `file`.
pub open spec fn count_remove(trace: Seq<RelayStepView>, file: Seq<char>) -> nat
    decreases trace.len(),
{
    if trace.len() == 0 {
        0
    } else {
        (if trace[0] == (RelayStepView::Remove { file }) {
            1nat
        } else {
            0nat
        }) + count_remove(trace.drop_first(), file)
    }
}

/// Law: one relay invocation materializes exactly one request artifact and,
/// whenever the artifact was created, removes exactly that artifact exactly
/// once, with the removal after the submission — regardless of the
/// submission's outcome, on which the trace does not even depend.
pub proof fn lemma_relay_artifact_discipline(file: Seq<char>, materialize_ok: bool)
    ensures
        count_materialize(relay_trace(file, materialize_ok), file) == 1,
        count_remove(relay_trace(file, materialize_ok), file) == (if materialize_ok {
            1nat
        } else {
            0nat
        }),
        materialize_ok ==> relay_trace(file, materialize_ok).last() == (RelayStepView::Remove {
            file,
        }),
{
    let t = relay_trace(file, materialize_ok);
    reveal_with_fuel(count_materialize, 5);
    reveal_with_fuel(count_remove, 5);
    if materialize_ok {
        assert(t.drop_first() =~= seq![
            RelayStepView::Submit { file },
            RelayStepView::Remove { file },
        ]);
        assert(t.drop_first().drop_first() =~= seq![RelayStepView::Remove { file }]);
        assert(t.drop_first().drop_first().drop_first() =~= Seq::<RelayStepView>::empty());
    } else {
        assert(t.drop_first() =~= Seq::<RelayStepView>::empty());
    }
}

/// What one step does to the artifact store, modelled as the set of
/// artifact names present: materializing writes the artifact, submitting
/// touches nothing, removing deletes it.
pub open spec fn apply_step(store: Set<Seq<char>>, step: RelayStepView) -> Set<Seq<char>> {
    match step {
        RelayStepView::Materialize { file } => store.insert(file),
        RelayStepView::Submit { file: _ } => store,
        RelayStepView::Remove { file } => store.remove(file),
    }
}

/// The artifact store after performing `steps` in order.
pub open spec fn apply_steps(store: Set<Seq<char>>, steps: Seq<RelayStepView>) -> Set<Seq<char>>
    decreases steps.len(),
{
    if steps.len() == 0 {
        store
    } else {
        apply_steps(apply_step(store, steps[0]), steps.drop_first())
    }
}

/// Law: one relay invocation leaves the artifact store exactly as it found
/// it, whatever the outcome. When the artifact was materialized, the full
/// trace removes it again before the invocation returns; when the
/// materialize attempt failed, no artifact ever existed and the remaining
/// steps — there are none — touch nothing.
pub proof fn lemma_relay_store_unchanged(
    store: Set<Seq<char>>,
    file: Seq<char>,
    materialize_ok: bool,
)
    requires
        !store.contains(file),
    ensures
        materialize_ok ==> apply_steps(store, relay_trace(file, materialize_ok)) == store,
        !materialize_ok ==> apply_steps(
            store,
            relay_trace(file, materialize_ok).drop_first(),
        ) == store,
{
    let t = relay_trace(file, materialize_ok);
    if materialize_ok {
        let after_write = store.insert(file);
        let t1 = t.drop_first();
        let t2 = t1.drop_first();
        assert(t1 =~= seq![RelayStepView::Submit { file }, RelayStepView::Remove { file }]);
        assert(t2 =~= seq![RelayStepView::Remove { file }]);
        assert(t2.drop_first() =~= Seq::<RelayStepView>::empty());
        assert(apply_steps(store, t) == apply_steps(after_write, t1));
        assert(apply_steps(after_write, t1) == apply_steps(after_write, t2));
        assert(apply_steps(after_write, t2) == apply_steps(
            after_write.remove(file),
            t2.drop_first(),
        ));
        assert(apply_steps(after_write.remove(file), t2.drop_first()) == after_write.remove(
            file,
        ));
        assert(after_write.remove(file) =~= store);
    } else {
        assert(t.drop_first() =~= Seq::<RelayStepView>::empty());
    }
}

/// What a well-formed relay response names as the created neuron: the
/// string under `"neuron_id"`, or failing that under `"id"`.
pub open spec fn parsed_neuron_id(text: Seq<char>) -> Option<Seq<char>> {
    match json_text_field(text, "neuron_id"@) {
        Some(id) => Some(id),
        None => json_text_field(text, "id"@),
    }
}

/// The string value at a top-level key of a JSON document, if the document
/// parses and holds a string there.
pub uninterp spec fn json_text_field(text: Seq<char>, key: Seq<char>) -> Option<Seq<char>>;

/// Whether a document is valid JSON.
pub uninterp spec fn json_document_valid(text: Seq<char>) -> bool;

/// Relies on `serde_json::from_str`, `serde_json::Value::get` and
/// `serde_json::Value::as_str`: the string value at a top-level key of a
/// JSON document is a function of the document text and the key alone.
#[verifier::external_body]
fn lookup_text_field(text: &str, key: &str) -> (r: Option<String>)
    ensures
        match r {
            Some(s) => json_text_field(text@, key@) == Some(s@),
            None => json_text_field(text@, key@) is None,
        },
{
    match serde_json::from_str::<serde_json::Value>(text) {
        Ok(doc) => doc.get(key).and_then(|v| v.as_str()).map(|s| s.to_string()),
        Err(_) => None,
    }
}

/// Relies on `serde_json::from_str`: whether a document parses as JSON is a
/// function of the document text alone.
#[verifier::external_body]
fn document_is_json(text: &str) -> (r: bool)
    ensures
        r == json_document_valid(text@),
{
    serde_json::from_str::<serde_json::Value>(text).is_ok()
}

/// Extracts the created neuron's id from the relay's response: the string
/// under `"neuron_id"`, or failing that under `"id"`; otherwise a relay
/// fault telling malformed JSON apart from a response with no neuron id.
pub fn parse_neuron_id_from_response(response: &String) -> (r: Result<String, GovernanceError>)
    ensures
        match parsed_neuron_id(response@) {
            Some(id) => r matches Ok(s) && s@ == id,
            None => r == Err::<String, GovernanceError>(
                GovernanceError::Relay(
                    if json_document_valid(response@) {
                        RelayFault::MissingNeuronId
                    } else {
                        RelayFault::InvalidJson
                    },
                ),
            ),
        },
{
    if let Some(id) = lookup_text_field(response.as_str(), "neuron_id") {
        return Ok(id);
    }
    if let Some(id) = lookup_text_field(response.as_str(), "id") {
        return Ok(id);
    }
    if document_is_json(response.as_str()) {
        Err(GovernanceError::Relay(RelayFault::MissingNeuronId))
    } else {
        Err(GovernanceError::Relay(RelayFault::InvalidJson))
    }
}

} // verus!
