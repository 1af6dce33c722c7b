//! The laws the registry obeys, stated over the abstract dependency tables
//! that the operations' contracts speak of and proved once for all keys and
//! units.
//!
//! Recording relates to the tables through `with_unit` (and `push` for the
//! unkeyed lists); dispatch reports `units_of` the matching key and prunes
//! with `remove` or keeps with `with_key`. Each law below therefore reads
//! directly as a statement about one record call followed by dispatch calls.

use crate::deps::{
    lemma_push_members, units_of, with_key, with_unit, DepKey,
};
use vstd::prelude::*;

verus! {

/// A successfully recorded unit is reported by the next invalidation event
/// matching its key: dispatch reports `units_of` the key, and recording put
/// the unit there. This holds for every keyed category — operator stability
/// (whose dispatch keeps the key), method-entry validity and method lookup
/// (whose dispatch prunes it).
pub proof fn lemma_recorded_unit_reported(m: Map<DepKey, Seq<u64>>, k: DepKey, u: u64)
    ensures
        units_of(with_unit(m, k, u), k).contains(u),
{
    lemma_push_members(units_of(m, k), u);
}

/// A successfully recorded unit of an unkeyed category (single-context mode,
/// global binding state) is reported by the next matching event, which
/// reports the whole list.
pub proof fn lemma_recorded_list_unit_reported(s: Seq<u64>, u: u64)
    ensures
        s.push(u).contains(u),
{
    lemma_push_members(s, u);
}

/// Invalidating a key with zero dependents is a no-op: nothing is reported,
/// and pruning the key changes nothing.
pub proof fn lemma_absent_key_noop(m: Map<DepKey, Seq<u64>>, k: DepKey)
    requires
        !m.contains_key(k),
    ensures
        units_of(m, k) == Seq::<u64>::empty(),
        m.remove(k) == m,
{
    assert(m.remove(k) =~= m);
}

/// Units registered under distinct keys are mutually unaffected: recording
/// under one key, pruning it, or creating it empty leaves every other key's
/// list as it was.
pub proof fn lemma_distinct_keys_unaffected(m: Map<DepKey, Seq<u64>>, k1: DepKey, k2: DepKey, u: u64)
    requires
        k1 != k2,
    ensures
        units_of(with_unit(m, k1, u), k2) == units_of(m, k2),
        units_of(m.remove(k1), k2) == units_of(m, k2),
        units_of(with_key(m, k1), k2) == units_of(m, k2),
{
}

/// Method-lookup invalidation is isolated to its exact (receiver class,
/// method name) pair: pruning one pair leaves the lists of every pair that
/// differs in the class, in the name, or in both.
pub proof fn lemma_method_lookup_isolated(
    m: Map<DepKey, Seq<u64>>,
    klass_a: u64,
    name_a: u64,
    klass_b: u64,
    name_b: u64,
)
    requires
        klass_a != klass_b || name_a != name_b,
    ensures
        units_of(m.remove((klass_a, name_a)), (klass_b, name_b)) == units_of(m, (klass_b, name_b)),
{
    lemma_distinct_keys_unaffected(m, (klass_a, name_a), (klass_b, name_b), 0);
}

/// A pruned key is gone: after an invalidation that removes it, a second
/// invalidation for the same key reports nothing and changes nothing.
pub proof fn lemma_pruned_key_reports_nothing(m: Map<DepKey, Seq<u64>>, k: DepKey)
    ensures
        units_of(m.remove(k), k) == Seq::<u64>::empty(),
        m.remove(k).remove(k) == m.remove(k),
{
    lemma_absent_key_noop(m.remove(k), k);
}

/// A kept key stays: after an invalidation that keeps the key (creating it
/// empty when absent), the key is present and a second invalidation for it
/// reports exactly the same units again.
pub proof fn lemma_kept_key_reports_again(m: Map<DepKey, Seq<u64>>, k: DepKey)
    ensures
        with_key(m, k).contains_key(k),
        units_of(with_key(m, k), k) == units_of(m, k),
        with_key(with_key(m, k), k) == with_key(m, k),
{
}

} // verus!
