//! The assumption registry: tracks which compiled units depend on which
//! runtime assumptions, and answers invalidation events with the units that
//! must be made non-enterable.
//!
//! Every operation expects the caller to hold the host's single
//! mutual-exclusion domain for compiled-code state: the registry performs no
//! locking of its own.

use crate::deps::{
    copy_units, in_table, lemma_concat_members, lemma_push_members, lemma_remove_members,
    lemma_with_key_members, lemma_with_unit_members, units_of, with_key, with_unit, DepKey,
    DepTable,
};
use vstd::prelude::*;

verus! {

/// The identity of a resolved method entry, together with the method-name
/// identity it was resolved for. The host guarantees that `id` stays stable
/// and is not reused while any dependent unit is registered.
#[derive(Clone, Copy, PartialEq, Eq, Structural)]
pub struct MethodEntry {
    /// Opaque identity of the resolved entry itself.
    pub id: u64,
    /// Identity of the method name the entry was resolved under.
    pub called_id: u64,
}

/// The abstract state of the registry: the five dependency indices, the set
/// of units whose safe-exit point has been established, and the invalidation
/// counters.
pub struct RegistrySnapshot {
    /// Units assuming a basic operator is unredefined, keyed by
    /// (class flag, operator identity).
    pub basic_operators: Map<DepKey, Seq<u64>>,
    /// Units assuming a method entry stays valid, keyed by
    /// (entry identity, 0).
    pub cme_validity: Map<DepKey, Seq<u64>>,
    /// Units assuming a method lookup stays stable, keyed by
    /// (receiver-class identity, method-name identity).
    pub method_lookup: Map<DepKey, Seq<u64>>,
    /// Units assuming a single execution context is running.
    pub single_ractor: Seq<u64>,
    /// Units assuming the global binding state is unchanged.
    pub global_constant_state: Seq<u64>,
    /// Units for which the safe-exit guarantee has been requested.
    pub entry_exits: Set<u64>,
    /// Invalidations after an operator redefinition.
    pub bop_redefined_count: u64,
    /// Invalidations after a method entry or method lookup change.
    pub method_lookup_count: u64,
    /// Invalidations before a new execution context spawns.
    pub ractor_spawn_count: u64,
    /// Invalidations after a global binding change.
    pub constant_state_count: u64,
}

/// Used to track all of the various unit references that contain assumptions
/// about the state of the virtual machine.
pub struct Invariants {
    basic_operators: DepTable,
    cme_validity: DepTable,
    method_lookup: DepTable,
    single_ractor: Vec<u64>,
    global_constant_state: Vec<u64>,
    entry_exits: Vec<u64>,
    bop_redefined_count: u64,
    method_lookup_count: u64,
    ractor_spawn_count: u64,
    constant_state_count: u64,
}

/// The key under which a method-entry-validity dependency is filed.
pub open spec fn cme_key(cme_id: u64) -> DepKey {
    (cme_id, 0)
}

/// The key under which an operator-stability dependency is filed.
pub open spec fn bop_key(klass: u32, bop: u32) -> DepKey {
    (klass as u64, bop as u64)
}

/// Whether unit `u` is registered under any key of any index.
pub open spec fn registered_unit(s: RegistrySnapshot, u: u64) -> bool {
    ||| in_table(s.basic_operators, u)
    ||| in_table(s.cme_validity, u)
    ||| in_table(s.method_lookup, u)
    ||| s.single_ractor.contains(u)
    ||| s.global_constant_state.contains(u)
}

/// A counter after `n` more invalidations: it sticks at the largest value
/// rather than wrap.
pub open spec fn sat_add(c: u64, n: nat) -> u64 {
    if c + n <= u64::MAX {
        (c + n) as u64
    } else {
        u64::MAX
    }
}

/// Every unit listed in any index has its safe-exit point established: no
/// unit is registered before it can be forced back onto the unspecialized
/// path.
pub open spec fn exits_established(s: RegistrySnapshot) -> bool {
    &&& forall|k: DepKey, u: u64|
        s.basic_operators.contains_key(k) && #[trigger] s.basic_operators[k].contains(u)
            ==> s.entry_exits.contains(u)
    &&& forall|k: DepKey, u: u64|
        s.cme_validity.contains_key(k) && #[trigger] s.cme_validity[k].contains(u)
            ==> s.entry_exits.contains(u)
    &&& forall|k: DepKey, u: u64|
        s.method_lookup.contains_key(k) && #[trigger] s.method_lookup[k].contains(u)
            ==> s.entry_exits.contains(u)
    &&& forall|u: u64| s.single_ractor.contains(u) ==> s.entry_exits.contains(u)
    &&& forall|u: u64| s.global_constant_state.contains(u) ==> s.entry_exits.contains(u)
}

/// Safe-exit coverage survives any step that keeps the indices and may only
/// grow the set of established exit points.
proof fn lemma_exits_preserved(a: RegistrySnapshot, b: RegistrySnapshot)
    requires
        exits_established(a),
        b.basic_operators == a.basic_operators,
        b.cme_validity == a.cme_validity,
        b.method_lookup == a.method_lookup,
        b.single_ractor == a.single_ractor,
        b.global_constant_state == a.global_constant_state,
        forall|u: u64| a.entry_exits.contains(u) ==> b.entry_exits.contains(u),
    ensures
        exits_established(b),
{
    assert forall|k: DepKey, u: u64|
        b.basic_operators.contains_key(k) && #[trigger] b.basic_operators[k].contains(
            u,
        ) implies b.entry_exits.contains(u) by {
        assert(a.basic_operators[k].contains(u));
        assert(a.entry_exits.contains(u));
    }
    assert forall|k: DepKey, u: u64|
        b.cme_validity.contains_key(k) && #[trigger] b.cme_validity[k].contains(
            u,
        ) implies b.entry_exits.contains(u) by {
        assert(a.cme_validity[k].contains(u));
        assert(a.entry_exits.contains(u));
    }
    assert forall|k: DepKey, u: u64|
        b.method_lookup.contains_key(k) && #[trigger] b.method_lookup[k].contains(
            u,
        ) implies b.entry_exits.contains(u) by {
        assert(a.method_lookup[k].contains(u));
        assert(a.entry_exits.contains(u));
    }
    assert forall|u: u64| b.single_ractor.contains(u) implies b.entry_exits.contains(u) by {
        assert(a.single_ractor.contains(u));
        assert(a.entry_exits.contains(u));
    }
    assert forall|u: u64| b.global_constant_state.contains(u) implies b.entry_exits.contains(
        u,
    ) by {
        assert(a.global_constant_state.contains(u));
        assert(a.entry_exits.contains(u));
    }
}

impl View for Invariants {
    type V = RegistrySnapshot;

    closed spec fn view(&self) -> RegistrySnapshot {
        RegistrySnapshot {
            basic_operators: self.basic_operators@,
            cme_validity: self.cme_validity@,
            method_lookup: self.method_lookup@,
            single_ractor: self.single_ractor@,
            global_constant_state: self.global_constant_state@,
            entry_exits: self.entry_exits@.to_set(),
            bop_redefined_count: self.bop_redefined_count,
            method_lookup_count: self.method_lookup_count,
            ractor_spawn_count: self.ractor_spawn_count,
            constant_state_count: self.constant_state_count,
        }
    }
}

impl Invariants {
    /// Well-formed: the indices carry distinct keys, and no unit is
    /// registered without an established safe-exit point.
    pub closed spec fn wf(&self) -> bool {
        &&& self.basic_operators.wf()
        &&& self.cme_validity.wf()
        &&& self.method_lookup.wf()
        &&& exits_established(self@)
    }

    /// A fresh registry: all indices empty, all counters zero. Created once,
    /// before any generated code can run, and kept for the whole process.
    pub fn init() -> (r: Invariants)
        ensures
            r.wf(),
            r@.basic_operators == Map::<DepKey, Seq<u64>>::empty(),
            r@.cme_validity == Map::<DepKey, Seq<u64>>::empty(),
            r@.method_lookup == Map::<DepKey, Seq<u64>>::empty(),
            r@.single_ractor == Seq::<u64>::empty(),
            r@.global_constant_state == Seq::<u64>::empty(),
            r@.entry_exits == Set::<u64>::empty(),
            r@.bop_redefined_count == 0,
            r@.method_lookup_count == 0,
            r@.ractor_spawn_count == 0,
            r@.constant_state_count == 0,
    {
        let r = Invariants {
            basic_operators: DepTable::new(),
            cme_validity: DepTable::new(),
            method_lookup: DepTable::new(),
            single_ractor: Vec::new(),
            global_constant_state: Vec::new(),
            entry_exits: Vec::new(),
            bop_redefined_count: 0,
            method_lookup_count: 0,
            ractor_spawn_count: 0,
            constant_state_count: 0,
        };
        proof {
            assert(r@.entry_exits =~= Set::<u64>::empty());
        }
        r
    }

    /// Requests the safe-exit guarantee for `unit`: idempotent at the unit
    /// level, so a unit already noted is not noted twice.
    fn note_exit(&mut self, unit: u64)
        ensures
            final(self)@ == (RegistrySnapshot {
                entry_exits: old(self)@.entry_exits.insert(unit),
                ..old(self)@
            }),
            final(self).basic_operators == old(self).basic_operators,
            final(self).cme_validity == old(self).cme_validity,
            final(self).method_lookup == old(self).method_lookup,
    {
        let ghost s0 = self.entry_exits@;
        let mut i: usize = 0;
        while i < self.entry_exits.len()
            invariant
                self.entry_exits@ == s0,
                i <= s0.len(),
                forall|j: int| 0 <= j < i ==> s0[j] != unit,
            decreases s0.len() - i,
        {
            if self.entry_exits[i] == unit {
                proof {
                    assert(s0.contains(unit));
                    assert(s0.to_set() =~= s0.to_set().insert(unit));
                }
                return ;
            }
            i = i + 1;
        }
        self.entry_exits.push(unit);
        proof {
            lemma_push_members(s0, unit);
            assert(s0.push(unit).to_set() =~= s0.to_set().insert(unit));
        }
    }

    /// Invalidations performed after operator redefinitions.
    pub fn bop_redefined_count(&self) -> (r: u64)
        ensures
            r == self@.bop_redefined_count,
    {
        self.bop_redefined_count
    }

    /// Invalidations performed after method entry or method lookup changes.
    pub fn method_lookup_count(&self) -> (r: u64)
        ensures
            r == self@.method_lookup_count,
    {
        self.method_lookup_count
    }

    /// Invalidations performed before new execution contexts spawned.
    pub fn ractor_spawn_count(&self) -> (r: u64)
        ensures
            r == self@.ractor_spawn_count,
    {
        self.ractor_spawn_count
    }

    /// Invalidations performed after global binding changes.
    pub fn constant_state_count(&self) -> (r: u64)
        ensures
            r == self@.constant_state_count,
    {
        self.constant_state_count
    }
}

/// Adds `n` invalidations to counter `c`, sticking at the largest value.
fn counter_bump(c: u64, n: usize) -> (r: u64)
    ensures
        r == sat_add(c, n as nat),
{
    let n64: u64 = n as u64;
    if c <= u64::MAX - n64 {
        c + n64
    } else {
        u64::MAX
    }
}

/// Records that `unit` assumes the basic operator `bop` is not redefined on
/// the class described by `klass`. `bop_unredefined` is the host's capability
/// query, read by the caller under the same mutual-exclusion domain: when it
/// is already false the assumption cannot be recorded, nothing changes, and
/// the caller must not rely on any later invalidation for this pair.
pub fn assume_bop_not_redefined(
    inv: &mut Invariants,
    bop_unredefined: bool,
    klass: u32,
    bop: u32,
    unit: u64,
) -> (r: bool)
    requires
        old(inv).wf(),
    ensures
        final(inv).wf(),
        r == bop_unredefined,
        !bop_unredefined ==> final(inv)@ == old(inv)@,
        bop_unredefined ==> final(inv)@ == (RegistrySnapshot {
            basic_operators: with_unit(old(inv)@.basic_operators, bop_key(klass, bop), unit),
            entry_exits: old(inv)@.entry_exits.insert(unit),
            ..old(inv)@
        }),
{
    if bop_unredefined {
        inv.note_exit(unit);
        let ghost mid = inv@;
        inv.basic_operators.append(klass as u64, bop as u64, unit);
        proof {
            lemma_with_unit_members(mid.basic_operators, bop_key(klass, bop), unit);
        }
        true
    } else {
        false
    }
}

/// Records that `unit` assumes `callee_cme` stays a valid method entry and
/// that method lookup of its name on `receiver_klass` keeps resolving to it.
/// The caller has already verified the resolution, so this is unconditional
/// bookkeeping: the unit is filed under both the entry's validity key and the
/// (receiver class, method name) lookup key.
pub fn assume_method_lookup_stable(
    inv: &mut Invariants,
    unit: u64,
    receiver_klass: u64,
    callee_cme: MethodEntry,
)
    requires
        old(inv).wf(),
    ensures
        final(inv).wf(),
        final(inv)@ == (RegistrySnapshot {
            cme_validity: with_unit(old(inv)@.cme_validity, cme_key(callee_cme.id), unit),
            method_lookup: with_unit(
                old(inv)@.method_lookup,
                (receiver_klass, callee_cme.called_id),
                unit,
            ),
            entry_exits: old(inv)@.entry_exits.insert(unit),
            ..old(inv)@
        }),
{
    inv.note_exit(unit);
    let ghost mid = inv@;
    inv.cme_validity.append(callee_cme.id, 0, unit);
    inv.method_lookup.append(receiver_klass, callee_cme.called_id, unit);
    proof {
        lemma_with_unit_members(mid.cme_validity, cme_key(callee_cme.id), unit);
        lemma_with_unit_members(mid.method_lookup, (receiver_klass, callee_cme.called_id), unit);
    }
}

/// Records that `unit` assumes a single execution context is running.
/// `multi_ractor` is the host's capability query, read by the caller under
/// the same mutual-exclusion domain: when another context is already active
/// the assumption cannot be recorded and nothing changes.
pub fn assume_single_ractor_mode(inv: &mut Invariants, multi_ractor: bool, unit: u64) -> (r: bool)
    requires
        old(inv).wf(),
    ensures
        final(inv).wf(),
        r == !multi_ractor,
        multi_ractor ==> final(inv)@ == old(inv)@,
        !multi_ractor ==> final(inv)@ == (RegistrySnapshot {
            single_ractor: old(inv)@.single_ractor.push(unit),
            entry_exits: old(inv)@.entry_exits.insert(unit),
            ..old(inv)@
        }),
{
    if multi_ractor {
        false
    } else {
        inv.note_exit(unit);
        let ghost mid = inv@;
        inv.single_ractor.push(unit);
        proof {
            lemma_push_members(mid.single_ractor, unit);
        }
        true
    }
}

/// Records that `unit` assumes the global binding state has not changed since
/// it was checked. Staleness is not observable as a predicate at call time,
/// so this is unconditional bookkeeping.
pub fn assume_stable_global_constant_state(inv: &mut Invariants, unit: u64)
    requires
        old(inv).wf(),
    ensures
        final(inv).wf(),
        final(inv)@ == (RegistrySnapshot {
            global_constant_state: old(inv)@.global_constant_state.push(unit),
            entry_exits: old(inv)@.entry_exits.insert(unit),
            ..old(inv)@
        }),
{
    inv.note_exit(unit);
    let ghost mid = inv@;
    inv.global_constant_state.push(unit);
    proof {
        lemma_push_members(mid.global_constant_state, unit);
    }
}

/// Called when a basic operation is redefined: returns every unit registered
/// under the (class, operator) key, in registration order, for the caller to
/// hand to the invalidation primitive. The list is kept (the key is created
/// empty when absent), so a repeated event reports the same units again;
/// invalidation must be idempotent at the unit level. A no-op when the JIT
/// subsystem is disabled.
pub fn rb_yjit_bop_redefined(
    inv: &mut Invariants,
    yjit_enabled: bool,
    klass: u32,
    bop: u32,
) -> (invalidated: Vec<u64>)
    requires
        old(inv).wf(),
    ensures
        final(inv).wf(),
        !yjit_enabled ==> final(inv)@ == old(inv)@ && invalidated@ == Seq::<u64>::empty(),
        yjit_enabled ==> invalidated@ == units_of(old(inv)@.basic_operators, bop_key(klass, bop)),
        yjit_enabled ==> final(inv)@ == (RegistrySnapshot {
            basic_operators: with_key(old(inv)@.basic_operators, bop_key(klass, bop)),
            bop_redefined_count: sat_add(old(inv)@.bop_redefined_count, invalidated@.len()),
            ..old(inv)@
        }),
{
    if !yjit_enabled {
        return Vec::new();
    }
    let ghost s0 = inv@;
    let invalidated = inv.basic_operators.units(klass as u64, bop as u64);
    inv.basic_operators.ensure_key(klass as u64, bop as u64);
    inv.bop_redefined_count = counter_bump(inv.bop_redefined_count, invalidated.len());
    proof {
        lemma_with_key_members(s0.basic_operators, bop_key(klass, bop));
    }
    invalidated
}

/// Called when a method entry becomes invalid: removes the entry's validity
/// key and returns the units that were registered under it, for the caller to
/// hand to the invalidation primitive. Because the key is pruned, a second
/// event for the same identity reports nothing. A missing key is a silent
/// no-op, and the whole call is a no-op when the JIT subsystem is disabled.
pub fn rb_yjit_cme_invalidate(inv: &mut Invariants, yjit_enabled: bool, cme_id: u64) -> (invalidated:
    Vec<u64>)
    requires
        old(inv).wf(),
    ensures
        final(inv).wf(),
        !yjit_enabled ==> final(inv)@ == old(inv)@ && invalidated@ == Seq::<u64>::empty(),
        yjit_enabled ==> invalidated@ == units_of(old(inv)@.cme_validity, cme_key(cme_id)),
        yjit_enabled ==> final(inv)@ == (RegistrySnapshot {
            cme_validity: old(inv)@.cme_validity.remove(cme_key(cme_id)),
            method_lookup_count: sat_add(old(inv)@.method_lookup_count, invalidated@.len()),
            ..old(inv)@
        }),
{
    if !yjit_enabled {
        return Vec::new();
    }
    let ghost s0 = inv@;
    let invalidated = inv.cme_validity.take(cme_id, 0);
    inv.method_lookup_count = counter_bump(inv.method_lookup_count, invalidated.len());
    proof {
        lemma_remove_members(s0.cme_validity, cme_key(cme_id));
    }
    invalidated
}

/// Called when method lookup of `mid` on `klass` is about to change: removes
/// the (class, name) key and returns the units that were registered under it,
/// for the caller to hand to the invalidation primitive. Sibling keys — other
/// names on the same class, the same name on other classes — are untouched.
/// A missing key is a silent no-op, and the whole call is a no-op when the
/// JIT subsystem is disabled.
pub fn rb_yjit_method_lookup_change(
    inv: &mut Invariants,
    yjit_enabled: bool,
    klass: u64,
    mid: u64,
) -> (invalidated: Vec<u64>)
    requires
        old(inv).wf(),
    ensures
        final(inv).wf(),
        !yjit_enabled ==> final(inv)@ == old(inv)@ && invalidated@ == Seq::<u64>::empty(),
        yjit_enabled ==> invalidated@ == units_of(old(inv)@.method_lookup, (klass, mid)),
        yjit_enabled ==> final(inv)@ == (RegistrySnapshot {
            method_lookup: old(inv)@.method_lookup.remove((klass, mid)),
            method_lookup_count: sat_add(old(inv)@.method_lookup_count, invalidated@.len()),
            ..old(inv)@
        }),
{
    if !yjit_enabled {
        return Vec::new();
    }
    let ghost s0 = inv@;
    let invalidated = inv.method_lookup.take(klass, mid);
    inv.method_lookup_count = counter_bump(inv.method_lookup_count, invalidated.len());
    proof {
        lemma_remove_members(s0.method_lookup, (klass, mid));
    }
    invalidated
}

/// Called before the host spawns a new execution context: returns every unit
/// assuming single-context mode, for the caller to hand to the invalidation
/// primitive before the new context runs any generated code. The list is
/// kept, so a repeated event reports the same units again. A no-op when the
/// JIT subsystem is disabled.
pub fn rb_yjit_before_ractor_spawn(inv: &mut Invariants, yjit_enabled: bool) -> (invalidated: Vec<
    u64,
>)
    requires
        old(inv).wf(),
    ensures
        final(inv).wf(),
        !yjit_enabled ==> final(inv)@ == old(inv)@ && invalidated@ == Seq::<u64>::empty(),
        yjit_enabled ==> invalidated@ == old(inv)@.single_ractor,
        yjit_enabled ==> final(inv)@ == (RegistrySnapshot {
            ractor_spawn_count: sat_add(old(inv)@.ractor_spawn_count, invalidated@.len()),
            ..old(inv)@
        }),
{
    if !yjit_enabled {
        return Vec::new();
    }
    let ghost s0 = inv@;
    let invalidated = copy_units(&inv.single_ractor);
    inv.ractor_spawn_count = counter_bump(inv.ractor_spawn_count, invalidated.len());
    proof {
        lemma_exits_preserved(s0, inv@);
    }
    invalidated
}

/// Called when the global binding state changes: returns every unit assuming
/// it stable, for the caller to hand to the invalidation primitive. The list
/// is kept, so a repeated event reports the same units again. A no-op when
/// the JIT subsystem is disabled.
pub fn rb_yjit_constant_state_changed(inv: &mut Invariants, yjit_enabled: bool) -> (invalidated:
    Vec<u64>)
    requires
        old(inv).wf(),
    ensures
        final(inv).wf(),
        !yjit_enabled ==> final(inv)@ == old(inv)@ && invalidated@ == Seq::<u64>::empty(),
        yjit_enabled ==> invalidated@ == old(inv)@.global_constant_state,
        yjit_enabled ==> final(inv)@ == (RegistrySnapshot {
            constant_state_count: sat_add(old(inv)@.constant_state_count, invalidated@.len()),
            ..old(inv)@
        }),
{
    if !yjit_enabled {
        return Vec::new();
    }
    let ghost s0 = inv@;
    let invalidated = copy_units(&inv.global_constant_state);
    inv.constant_state_count = counter_bump(inv.constant_state_count, invalidated.len());
    proof {
        lemma_exits_preserved(s0, inv@);
    }
    invalidated
}

/// Called when a dynamic tracing facility is turned on: previously generated
/// code contains no hooks for it, so every unit registered under any key of
/// any index is reported for invalidation and all indices are emptied — the
/// registry stops listening for the finer-grained events. The counters and
/// the record of established exit points are kept. The caller must make every
/// reported unit non-enterable before any of it can run again; what the host
/// patches beyond the registered units is its own concern. A no-op when the
/// JIT subsystem is disabled.
pub fn rb_yjit_tracing_invalidate_all(inv: &mut Invariants, yjit_enabled: bool) -> (invalidated:
    Vec<u64>)
    requires
        old(inv).wf(),
    ensures
        final(inv).wf(),
        !yjit_enabled ==> final(inv)@ == old(inv)@ && invalidated@ == Seq::<u64>::empty(),
        yjit_enabled ==> forall|u: u64|
            invalidated@.contains(u) <==> registered_unit(old(inv)@, u),
        yjit_enabled ==> final(inv)@ == (RegistrySnapshot {
            basic_operators: Map::<DepKey, Seq<u64>>::empty(),
            cme_validity: Map::<DepKey, Seq<u64>>::empty(),
            method_lookup: Map::<DepKey, Seq<u64>>::empty(),
            single_ractor: Seq::<u64>::empty(),
            global_constant_state: Seq::<u64>::empty(),
            ..old(inv)@
        }),
{
    if !yjit_enabled {
        return Vec::new();
    }
    let ghost s0 = inv@;
    let mut invalidated = inv.basic_operators.drain_all();
    let ghost part1 = invalidated@;
    let mut more = inv.cme_validity.drain_all();
    let ghost part2 = more@;
    invalidated.append(&mut more);
    proof {
        lemma_concat_members(part1, part2);
    }
    let ghost acc2 = invalidated@;
    let mut more = inv.method_lookup.drain_all();
    let ghost part3 = more@;
    invalidated.append(&mut more);
    proof {
        lemma_concat_members(acc2, part3);
    }
    let ghost acc3 = invalidated@;
    let mut more = copy_units(&inv.single_ractor);
    let ghost part4 = more@;
    inv.single_ractor.clear();
    invalidated.append(&mut more);
    proof {
        lemma_concat_members(acc3, part4);
    }
    let ghost acc4 = invalidated@;
    let mut more = copy_units(&inv.global_constant_state);
    let ghost part5 = more@;
    inv.global_constant_state.clear();
    invalidated.append(&mut more);
    proof {
        lemma_concat_members(acc4, part5);
        assert forall|u: u64| invalidated@.contains(u) <==> registered_unit(s0, u) by {
            assert(invalidated@.contains(u) <==> acc4.contains(u) || part5.contains(u));
            assert(acc4.contains(u) <==> acc3.contains(u) || part4.contains(u));
            assert(acc3.contains(u) <==> acc2.contains(u) || part3.contains(u));
            assert(acc2.contains(u) <==> part1.contains(u) || part2.contains(u));
            assert(part1.contains(u) <==> in_table(s0.basic_operators, u));
            assert(part2.contains(u) <==> in_table(s0.cme_validity, u));
            assert(part3.contains(u) <==> in_table(s0.method_lookup, u));
            assert(part4.contains(u) <==> s0.single_ractor.contains(u));
            assert(part5.contains(u) <==> s0.global_constant_state.contains(u));
        }
    }
    invalidated
}

} // verus!
