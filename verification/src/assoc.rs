//! Association-sequence reasoning.
//!
//! Every store in the engine is a sequence of records with a unique key:
//! guardrails by identifier, neurons by controller, open votes and results
//! by rule id, vote records by voter. This module gives the shared
//! specification of keyed lookup over such sequences, together with the
//! lemmas that relate lookup to the three ways a store changes: replacing
//! a record in place, appending a fresh record, and leaving it alone.

use vstd::prelude::*;

verus! {

/// The first value bound to `key`, scanning left to right.
pub open spec fn assoc_find<K, V>(s: Seq<(K, V)>, key: K) -> Option<V>
    decreases s.len(),
{
    if s.len() == 0 {
        None
    } else if s[0].0 == key {
        Some(s[0].1)
    } else {
        assoc_find(s.drop_first(), key)
    }
}

/// No key occurs twice.
pub open spec fn assoc_unique<K, V>(s: Seq<(K, V)>) -> bool {
    forall|i: int, j: int| 0 <= i < j < s.len() ==> (#[trigger] s[i]).0 != (#[trigger] s[j]).0
}

/// A key that occurs first at position `i` is what lookup returns.
pub proof fn lemma_assoc_find_at<K, V>(s: Seq<(K, V)>, i: int)
    requires
        0 <= i < s.len(),
        forall|k: int| 0 <= k < i ==> (#[trigger] s[k]).0 != s[i].0,
    ensures
        assoc_find(s, s[i].0) == Some(s[i].1),
    decreases i,
{
    if i > 0 {
        assert(s.drop_first()[i - 1] == s[i]);
        assert(forall|k: int| 0 <= k < i - 1 ==> (#[trigger] s.drop_first()[k]).0 != s
            .drop_first()[i - 1].0) by {
            assert(forall|k: int| 0 <= k < i - 1 ==> #[trigger] s.drop_first()[k] == s[k + 1]);
        }
        lemma_assoc_find_at(s.drop_first(), i - 1);
    }
}

/// A key that occurs nowhere is not found.
pub proof fn lemma_assoc_find_absent<K, V>(s: Seq<(K, V)>, key: K)
    requires
        forall|k: int| 0 <= k < s.len() ==> (#[trigger] s[k]).0 != key,
    ensures
        assoc_find(s, key) is None,
    decreases s.len(),
{
    if s.len() > 0 {
        assert(forall|k: int| 0 <= k < s.drop_first().len() ==> (#[trigger] s.drop_first()[k]).0
            != key) by {
            assert(forall|k: int| 0 <= k < s.len() - 1 ==> #[trigger] s.drop_first()[k] == s[k
                + 1]);
        }
        lemma_assoc_find_absent(s.drop_first(), key);
    }
}

/// A key that is not found occurs nowhere.
pub proof fn lemma_assoc_absent_of_find<K, V>(s: Seq<(K, V)>, key: K)
    requires
        assoc_find(s, key) is None,
    ensures
        forall|k: int| 0 <= k < s.len() ==> (#[trigger] s[k]).0 != key,
    decreases s.len(),
{
    if s.len() > 0 {
        lemma_assoc_absent_of_find(s.drop_first(), key);
        assert forall|k: int| 0 <= k < s.len() implies (#[trigger] s[k]).0 != key by {
            if k > 0 {
                assert(s.drop_first()[k - 1] == s[k]);
            }
        }
    }
}

/// Replacing the record at a key's position changes that key's binding and
/// no other, and keeps keys unique.
pub proof fn lemma_assoc_find_update<K, V>(s: Seq<(K, V)>, i: int, kv: (K, V), key: K)
    requires
        assoc_unique(s),
        0 <= i < s.len(),
        kv.0 == s[i].0,
    ensures
        assoc_unique(s.update(i, kv)),
        assoc_find(s.update(i, kv), key) == (if key == kv.0 {
            Some(kv.1)
        } else {
            assoc_find(s, key)
        }),
    decreases s.len(),
{
    let t = s.update(i, kv);
    assert(assoc_unique(t)) by {
        assert(forall|k: int| 0 <= k < t.len() ==> (#[trigger] t[k]).0 == s[k].0);
    }
    if i == 0 {
        assert(t[0] == kv);
        assert(t.drop_first() =~= s.drop_first());
        if key != kv.0 {
            assert(assoc_find(s, key) == assoc_find(s.drop_first(), key));
        }
    } else {
        assert(t[0] == s[0]);
        assert(s[0].0 != s[i].0);
        assert(t.drop_first() =~= s.drop_first().update(i - 1, kv));
        assert(assoc_unique(s.drop_first())) by {
            assert(forall|k: int| 0 <= k < s.len() - 1 ==> #[trigger] s.drop_first()[k] == s[k
                + 1]);
        }
        assert(s.drop_first()[i - 1] == s[i]);
        lemma_assoc_find_update(s.drop_first(), i - 1, kv, key);
    }
}

/// Appending a record under a fresh key binds that key and no other, and
/// keeps keys unique.
pub proof fn lemma_assoc_find_push<K, V>(s: Seq<(K, V)>, kv: (K, V), key: K)
    requires
        assoc_unique(s),
        assoc_find(s, kv.0) is None,
    ensures
        assoc_unique(s.push(kv)),
        assoc_find(s.push(kv), key) == (if key == kv.0 {
            Some(kv.1)
        } else {
            assoc_find(s, key)
        }),
    decreases s.len(),
{
    let t = s.push(kv);
    lemma_assoc_absent_of_find(s, kv.0);
    assert(assoc_unique(t)) by {
        assert(forall|k: int| 0 <= k < s.len() ==> #[trigger] t[k] == s[k]);
        assert(t[s.len() as int] == kv);
    }
    if s.len() == 0 {
        assert(t[0] == kv);
        assert(t.drop_first() =~= Seq::<(K, V)>::empty());
    } else {
        assert(t[0] == s[0]);
        assert(t.drop_first() =~= s.drop_first().push(kv));
        assert(assoc_unique(s.drop_first()) && assoc_find(s.drop_first(), kv.0) is None) by {
            assert(forall|k: int| 0 <= k < s.len() - 1 ==> #[trigger] s.drop_first()[k] == s[k
                + 1]);
            if s[0].0 == kv.0 {
                assert(assoc_find(s, kv.0) == Some(s[0].1));
            }
        }
        lemma_assoc_find_push(s.drop_first(), kv, key);
    }
}

} // verus!
