//! The guardrail catalog: a store of guardrail aggregates keyed by their
//! identifier, with last-write-wins upsert semantics.
//!
//! A guardrail owns an append-only list of rules; proposing a rule appends
//! it with status `Proposed` and a zeroed vote counter. The catalog's rule
//! entries are informational copies: the voting engine correlates with them
//! only through a shared numeric rule-id convention and never mutates them.

use vstd::prelude::*;
use crate::assoc::{
    assoc_find, assoc_unique, lemma_assoc_find_absent, lemma_assoc_find_at,
    lemma_assoc_find_push, lemma_assoc_find_update,
};
use crate::errors::GovernanceError;
use crate::identifier::BoundedString;
use crate::principal::PrincipalId;

verus! {

/// Lifecycle status of a rule within a guardrail.
#[derive(Clone, Copy, PartialEq, Eq, Structural, Debug)]
pub enum RuleStatus {
    Proposed,
    Voting,
    Approved,
    Rejected,
}

/// A single moderation rule held by a guardrail.
pub struct Rule {
    pub id: BoundedString,
    pub text: BoundedString,
    pub status: RuleStatus,
    pub votes: u32,
}

/// A guardrail: a named, categorised, owned collection of rules.
pub struct Guardrail {
    pub id: BoundedString,
    pub name: BoundedString,
    pub category: BoundedString,
    pub rules: Vec<Rule>,
    pub owner: PrincipalId,
    pub created_at: u64,
}

/// The mathematical value of a `Rule`.
pub struct RuleView {
    pub id: Seq<char>,
    pub text: Seq<char>,
    pub status: RuleStatus,
    pub votes: u32,
}

/// The mathematical value of a `Guardrail`.
pub struct GuardrailView {
    pub id: Seq<char>,
    pub name: Seq<char>,
    pub category: Seq<char>,
    pub rules: Seq<RuleView>,
    pub owner: Seq<u8>,
    pub created_at: u64,
}

impl View for Rule {
    type V = RuleView;

    open spec fn view(&self) -> RuleView {
        RuleView { id: self.id@, text: self.text@, status: self.status, votes: self.votes }
    }
}

impl View for Guardrail {
    type V = GuardrailView;

    open spec fn view(&self) -> GuardrailView {
        GuardrailView {
            id: self.id@,
            name: self.name@,
            category: self.category@,
            rules: Seq::new(self.rules@.len(), |i: int| self.rules@[i]@),
            owner: self.owner@,
            created_at: self.created_at,
        }
    }
}

impl Clone for Rule {
    fn clone(&self) -> (r: Self)
        ensures
            r@ == self@,
    {
        Rule {
            id: self.id.clone(),
            text: self.text.clone(),
            status: self.status,
            votes: self.votes,
        }
    }
}

impl Clone for Guardrail {
    fn clone(&self) -> (r: Self)
        ensures
            r@ == self@,
    {
        let r = Guardrail {
            id: self.id.clone(),
            name: self.name.clone(),
            category: self.category.clone(),
            rules: self.rules.clone(),
            owner: self.owner.clone(),
            created_at: self.created_at,
        };
        proof {
            assert(r@.rules =~= self@.rules);
        }
        r
    }
}

/// The views of a sequence of guardrails.
pub open spec fn guardrail_views(s: Seq<Guardrail>) -> Seq<GuardrailView> {
    s.map_values(|g: Guardrail| g@)
}

/// The catalog's contents as an association sequence keyed by guardrail id.
pub open spec fn by_id(s: Seq<GuardrailView>) -> Seq<(Seq<char>, GuardrailView)> {
    s.map_values(|g: GuardrailView| (g.id, g))
}

/// The guardrail stored under `id`, if any.
pub open spec fn find_guardrail(s: Seq<GuardrailView>, id: Seq<char>) -> Option<GuardrailView> {
    assoc_find(by_id(s), id)
}

/// Holds of guardrails owned by `owner`.
pub open spec fn owned_by(owner: Seq<u8>) -> spec_fn(GuardrailView) -> bool {
    |g: GuardrailView| g.owner == owner
}

/// The guardrail store.
pub struct GuardrailCatalog {
    entries: Vec<Guardrail>,
}

impl View for GuardrailCatalog {
    type V = Seq<GuardrailView>;

    closed spec fn view(&self) -> Seq<GuardrailView> {
        guardrail_views(self.entries@)
    }
}

impl GuardrailCatalog {
    /// Catalog invariant: guardrail identifiers are unique.
    pub open spec fn wf(&self) -> bool {
        assoc_unique(by_id(self@))
    }

    /// An empty catalog.
    pub fn new() -> (c: GuardrailCatalog)
        ensures
            c.wf(),
            c@ == Seq::<GuardrailView>::empty(),
    {
        let c = GuardrailCatalog { entries: Vec::new() };
        proof {
            assert(c@ =~= Seq::<GuardrailView>::empty());
        }
        c
    }

    /// Upserts a guardrail under its own id and returns the id: an existing
    /// guardrail with the same id is replaced, any other is untouched.
    pub fn create_guardrail(&mut self, guardrail: Guardrail) -> (r: Result<
        BoundedString,
        GovernanceError,
    >)
        requires
            old(self).wf(),
        ensures
            final(self).wf(),
            r matches Ok(b) && b@ == guardrail@.id,
            find_guardrail(final(self)@, guardrail@.id) == Some(guardrail@),
            forall|k: Seq<char>| k != guardrail@.id ==> find_guardrail(final(self)@, k)
                == find_guardrail(old(self)@, k),
    {
        let returned_id = guardrail.id.clone();
        let ghost old_view = self@;
        let n = self.entries.len();
        let mut i: usize = 0;
        while i < n
            invariant
                n == self.entries.len(),
                i <= n,
                forall|k: int| 0 <= k < i ==> (#[trigger] self.entries@[k])@.id != guardrail@.id,
            ensures
                n == self.entries.len(),
                i <= n,
                forall|k: int| 0 <= k < i ==> (#[trigger] self.entries@[k])@.id != guardrail@.id,
                i < n ==> self.entries@[i as int]@.id == guardrail@.id,
            decreases n - i,
        {
            if self.entries[i].id == guardrail.id {
                break;
            }
            i += 1;
        }
        if i < n {
            proof {
                assert(by_id(old_view)[i as int] == (old_view[i as int].id, old_view[i as int]));
                lemma_assoc_find_update(
                    by_id(old_view),
                    i as int,
                    (guardrail@.id, guardrail@),
                    guardrail@.id,
                );
            }
            let ghost g_view = guardrail@;
            self.entries[i] = guardrail;
            proof {
                assert(by_id(self@) =~= by_id(old_view).update(i as int, (g_view.id, g_view)));
                assert forall|k: Seq<char>| k != g_view.id implies find_guardrail(self@, k)
                    == find_guardrail(old_view, k) by {
                    lemma_assoc_find_update(by_id(old_view), i as int, (g_view.id, g_view), k);
                }
            }
        } else {
            proof {
                assert forall|k: int| 0 <= k < by_id(old_view).len() implies (
                #[trigger] by_id(old_view)[k]).0 != guardrail@.id by {
                    assert(by_id(old_view)[k] == (old_view[k].id, old_view[k]));
                }
                lemma_assoc_find_absent(by_id(old_view), guardrail@.id);
                lemma_assoc_find_push(by_id(old_view), (guardrail@.id, guardrail@), guardrail@.id);
            }
            let ghost g_view = guardrail@;
            self.entries.push(guardrail);
            proof {
                assert(by_id(self@) =~= by_id(old_view).push((g_view.id, g_view)));
                assert forall|k: Seq<char>| k != g_view.id implies find_guardrail(self@, k)
                    == find_guardrail(old_view, k) by {
                    lemma_assoc_find_push(by_id(old_view), (g_view.id, g_view), k);
                }
            }
        }
        Ok(returned_id)
    }

    /// Appends a rule to an existing guardrail, storing it with status
    /// `Proposed` and a zeroed vote counter, and returns the rule's id;
    /// fails with `NotFound` when no guardrail has the given id.
    pub fn propose_rule(&mut self, guardrail_id: &BoundedString, rule: Rule) -> (r: Result<
        BoundedString,
        GovernanceError,
    >)
        requires
            old(self).wf(),
        ensures
            final(self).wf(),
            match find_guardrail(old(self)@, guardrail_id@) {
                None => {
                    &&& r == Err::<BoundedString, GovernanceError>(GovernanceError::NotFound)
                    &&& final(self)@ == old(self)@
                },
                Some(g) => {
                    &&& r matches Ok(b) && b@ == rule@.id
                    &&& find_guardrail(final(self)@, guardrail_id@) == Some(
                        (GuardrailView {
                            rules: g.rules.push(
                                (RuleView {
                                    id: rule@.id,
                                    text: rule@.text,
                                    status: RuleStatus::Proposed,
                                    votes: 0,
                                }),
                            ),
                            ..g
                        }),
                    )
                    &&& forall|k: Seq<char>| k != guardrail_id@ ==> find_guardrail(
                        final(self)@,
                        k,
                    ) == find_guardrail(old(self)@, k)
                },
            },
    {
        let ghost old_view = self@;
        let n = self.entries.len();
        let mut i: usize = 0;
        while i < n
            invariant
                n == self.entries.len(),
                i <= n,
                forall|k: int| 0 <= k < i ==> (#[trigger] self.entries@[k])@.id != guardrail_id@,
            ensures
                n == self.entries.len(),
                i <= n,
                forall|k: int| 0 <= k < i ==> (#[trigger] self.entries@[k])@.id != guardrail_id@,
                i < n ==> self.entries@[i as int]@.id == guardrail_id@,
            decreases n - i,
        {
            if self.entries[i].id == *guardrail_id {
                break;
            }
            i += 1;
        }
        if i < n {
            proof {
                assert(by_id(old_view)[i as int] == (old_view[i as int].id, old_view[i as int]));
                lemma_assoc_find_at(by_id(old_view), i as int);
            }
            let returned_id = rule.id.clone();
            let mut g = self.entries[i].clone();
            let stored = Rule { id: rule.id, text: rule.text, status: RuleStatus::Proposed, votes: 0 };
            g.rules.push(stored);
            let ghost g_view = g@;
            proof {
                assert(g_view.rules =~= old_view[i as int].rules.push(
                    RuleView {
                        id: rule@.id,
                        text: rule@.text,
                        status: RuleStatus::Proposed,
                        votes: 0,
                    },
                ));
                lemma_assoc_find_update(by_id(old_view), i as int, (g_view.id, g_view), g_view.id);
            }
            self.entries[i] = g;
            proof {
                assert(by_id(self@) =~= by_id(old_view).update(i as int, (g_view.id, g_view)));
                assert forall|k: Seq<char>| k != guardrail_id@ implies find_guardrail(self@, k)
                    == find_guardrail(old_view, k) by {
                    lemma_assoc_find_update(by_id(old_view), i as int, (g_view.id, g_view), k);
                }
            }
            Ok(returned_id)
        } else {
            proof {
                assert forall|k: int| 0 <= k < by_id(old_view).len() implies (
                #[trigger] by_id(old_view)[k]).0 != guardrail_id@ by {
                    assert(by_id(old_view)[k] == (old_view[k].id, old_view[k]));
                }
                lemma_assoc_find_absent(by_id(old_view), guardrail_id@);
            }
            Err(GovernanceError::NotFound)
        }
    }

    /// The guardrail stored under `id`; `NotFound` when there is none.
    pub fn get_guardrail(&self, id: &BoundedString) -> (r: Result<Guardrail, GovernanceError>)
        ensures
            match find_guardrail(self@, id@) {
                None => r == Err::<Guardrail, GovernanceError>(GovernanceError::NotFound),
                Some(g) => r matches Ok(found) && found@ == g,
            },
    {
        let n = self.entries.len();
        let mut i: usize = 0;
        while i < n
            invariant
                n == self.entries.len(),
                i <= n,
                forall|k: int| 0 <= k < i ==> (#[trigger] self.entries@[k])@.id != id@,
            decreases n - i,
        {
            if self.entries[i].id == *id {
                proof {
                    assert(by_id(self@)[i as int] == (self@[i as int].id, self@[i as int]));
                    lemma_assoc_find_at(by_id(self@), i as int);
                }
                return Ok(self.entries[i].clone());
            }
            i += 1;
        }
        proof {
            assert forall|k: int| 0 <= k < by_id(self@).len() implies (
            #[trigger] by_id(self@)[k]).0 != id@ by {
                assert(by_id(self@)[k] == (self@[k].id, self@[k]));
            }
            lemma_assoc_find_absent(by_id(self@), id@);
        }
        Err(GovernanceError::NotFound)
    }

    /// Every guardrail, in catalog order.
    pub fn get_all_gaurdrails(&self) -> (r: Vec<Guardrail>)
        ensures
            guardrail_views(r@) == self@,
    {
        let n = self.entries.len();
        let mut out: Vec<Guardrail> = Vec::new();
        let mut i: usize = 0;
        while i < n
            invariant
                n == self.entries.len(),
                i <= n,
                out@.len() == i,
                forall|k: int| 0 <= k < i ==> (#[trigger] out@[k])@ == self@[k],
            decreases n - i,
        {
            out.push(self.entries[i].clone());
            i += 1;
        }
        proof {
            assert(guardrail_views(out@) =~= self@);
        }
        out
    }

    /// The guardrails owned by `owner`, in catalog order.
    pub fn get_guardrails_by_owner(&self, owner: &PrincipalId) -> (r: Vec<Guardrail>)
        ensures
            guardrail_views(r@) == self@.filter(owned_by(owner@)),
    {
        let n = self.entries.len();
        let mut out: Vec<Guardrail> = Vec::new();
        let mut i: usize = 0;
        while i < n
            invariant
                n == self.entries.len(),
                i <= n,
                guardrail_views(out@) == self@.take(i as int).filter(owned_by(owner@)),
            decreases n - i,
        {
            let ghost prefix = self@.take(i as int);
            let ghost next_prefix = self@.take(i + 1);
            proof {
                assert(next_prefix.drop_last() =~= prefix);
                assert(next_prefix.last() == self@[i as int]);
            }
            if self.entries[i].owner == *owner {
                out.push(self.entries[i].clone());
                proof {
                    assert(guardrail_views(out@) =~= prefix.filter(owned_by(owner@)).push(
                        self@[i as int],
                    ));
                }
            }
            proof {
                reveal_with_fuel(Seq::filter, 2);
                assert(next_prefix.filter(owned_by(owner@)) == if owned_by(owner@)(
                    next_prefix.last(),
                ) {
                    next_prefix.drop_last().filter(owned_by(owner@)).push(next_prefix.last())
                } else {
                    next_prefix.drop_last().filter(owned_by(owner@))
                });
            }
            i += 1;
        }
        proof {
            assert(self@.take(n as int) =~= self@);
        }
        out
    }
}

} // verus!
