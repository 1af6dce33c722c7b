//! A dependency table: a finite map from assumption keys to the lists of
//! compiled-unit handles registered under them.
//!
//! A key is a pair of machine words; categories keyed by a single identity
//! use zero for the second word. The table is represented as an association
//! list with pairwise-distinct keys and is viewed abstractly as a
//! `Map<DepKey, Seq<u64>>`.

use vstd::prelude::*;

verus! {

/// An assumption key: two machine words identifying one assumption instance.
pub type DepKey = (u64, u64);

/// One slot of the table: a key and the units registered under it.
struct DepEntry {
    k1: u64,
    k2: u64,
    units: Vec<u64>,
}

/// A table from assumption keys to the compiled units that depend on them.
pub struct DepTable {
    entries: Vec<DepEntry>,
}

spec fn entry_key(e: DepEntry) -> DepKey {
    (e.k1, e.k2)
}

/// The units registered under `k`: the empty sequence when the key is absent.
pub open spec fn units_of(m: Map<DepKey, Seq<u64>>, k: DepKey) -> Seq<u64> {
    if m.contains_key(k) {
        m[k]
    } else {
        Seq::empty()
    }
}

/// The table after appending `u` under `k`, creating the list when absent.
pub open spec fn with_unit(m: Map<DepKey, Seq<u64>>, k: DepKey, u: u64) -> Map<DepKey, Seq<u64>> {
    m.insert(k, units_of(m, k).push(u))
}

/// The table after making sure `k` is present, with an empty list when new.
pub open spec fn with_key(m: Map<DepKey, Seq<u64>>, k: DepKey) -> Map<DepKey, Seq<u64>> {
    if m.contains_key(k) {
        m
    } else {
        m.insert(k, Seq::empty())
    }
}

/// Whether unit `u` is registered under some key of `m`.
pub open spec fn in_table(m: Map<DepKey, Seq<u64>>, u: u64) -> bool {
    exists|k: DepKey| #[trigger] m.contains_key(k) && m[k].contains(u)
}

spec fn seq_view(s: Seq<DepEntry>) -> Map<DepKey, Seq<u64>>
    decreases s.len(),
{
    if s.len() == 0 {
        Map::empty()
    } else {
        seq_view(s.drop_last()).insert(entry_key(s.last()), s.last().units@)
    }
}

spec fn keys_unique(s: Seq<DepEntry>) -> bool {
    forall|i: int, j: int|
        0 <= i < j < s.len() ==> entry_key(s[i]) != entry_key(s[j])
}

proof fn lemma_view_absent(s: Seq<DepEntry>, k: DepKey)
    requires
        forall|i: int| 0 <= i < s.len() ==> entry_key(s[i]) != k,
    ensures
        !seq_view(s).contains_key(k),
    decreases s.len(),
{
    if s.len() > 0 {
        lemma_view_absent(s.drop_last(), k);
    }
}

proof fn lemma_view_index(s: Seq<DepEntry>, i: int)
    requires
        keys_unique(s),
        0 <= i < s.len(),
    ensures
        seq_view(s).contains_key(entry_key(s[i])),
        seq_view(s)[entry_key(s[i])] == s[i].units@,
    decreases s.len(),
{
    if i < s.len() - 1 {
        lemma_view_index(s.drop_last(), i);
    }
}

proof fn lemma_view_dom(s: Seq<DepEntry>, k: DepKey)
    requires
        seq_view(s).contains_key(k),
    ensures
        exists|i: int| 0 <= i < s.len() && entry_key(#[trigger] s[i]) == k,
    decreases s.len(),
{
    if s.len() > 0 {
        if entry_key(s.last()) == k {
            assert(entry_key(s[s.len() - 1]) == k);
        } else {
            lemma_view_dom(s.drop_last(), k);
            let i = choose|i: int|
                0 <= i < s.drop_last().len() && entry_key(#[trigger] s.drop_last()[i]) == k;
            assert(entry_key(s[i]) == k);
        }
    }
}

proof fn lemma_view_update(s: Seq<DepEntry>, i: int, e: DepEntry)
    requires
        keys_unique(s),
        0 <= i < s.len(),
        entry_key(e) == entry_key(s[i]),
    ensures
        seq_view(s.update(i, e)) == seq_view(s).insert(entry_key(e), e.units@),
        keys_unique(s.update(i, e)),
    decreases s.len(),
{
    let t = s.update(i, e);
    if i == s.len() - 1 {
        assert(t.drop_last() =~= s.drop_last());
        assert(seq_view(t) =~= seq_view(s).insert(entry_key(e), e.units@));
    } else {
        assert(t.drop_last() =~= s.drop_last().update(i, e));
        lemma_view_update(s.drop_last(), i, e);
        assert(seq_view(t) =~= seq_view(s).insert(entry_key(e), e.units@));
    }
}

proof fn lemma_view_remove(s: Seq<DepEntry>, i: int)
    requires
        keys_unique(s),
        0 <= i < s.len(),
    ensures
        seq_view(s.remove(i)) == seq_view(s).remove(entry_key(s[i])),
        keys_unique(s.remove(i)),
    decreases s.len(),
{
    let k = entry_key(s[i]);
    if i == s.len() - 1 {
        assert(s.remove(i) =~= s.drop_last());
        lemma_view_absent_of_unique(s);
        assert(!seq_view(s.drop_last()).contains_key(k));
        assert(seq_view(s.remove(i)) =~= seq_view(s).remove(k));
    } else {
        let t = s.remove(i);
        assert(t.drop_last() =~= s.drop_last().remove(i));
        lemma_view_remove(s.drop_last(), i);
        assert(seq_view(t) =~= seq_view(s).remove(k));
    }
}

/// In a table with distinct keys, the last entry's key does not occur among
/// the earlier entries.
proof fn lemma_view_absent_of_unique(s: Seq<DepEntry>)
    requires
        keys_unique(s),
        s.len() > 0,
    ensures
        !seq_view(s.drop_last()).contains_key(entry_key(s.last())),
{
    lemma_view_absent(s.drop_last(), entry_key(s.last()));
}

proof fn lemma_view_push(s: Seq<DepEntry>, e: DepEntry)
    requires
        forall|i: int| 0 <= i < s.len() ==> entry_key(s[i]) != entry_key(e),
    ensures
        seq_view(s.push(e)) == seq_view(s).insert(entry_key(e), e.units@),
        keys_unique(s) ==> keys_unique(s.push(e)),
{
    assert(s.push(e).drop_last() =~= s);
    assert(s.push(e).last() == e);
}

/// Appending to a sequence adds exactly the new element to its members.
pub proof fn lemma_push_members(s: Seq<u64>, x: u64)
    ensures
        forall|u: u64| #![trigger s.push(x).contains(u)]
            s.push(x).contains(u) <==> s.contains(u) || u == x,
{
    assert forall|u: u64| #[trigger] s.push(x).contains(u) implies s.contains(u) || u == x by {
        let idx = choose|idx: int| 0 <= idx < s.push(x).len() && s.push(x)[idx] == u;
        if idx < s.len() {
            assert(s[idx] == u);
        }
    }
    assert forall|u: u64| s.contains(u) implies s.push(x).contains(u) by {
        let idx = choose|idx: int| 0 <= idx < s.len() && s[idx] == u;
        assert(s.push(x)[idx] == u);
    }
    assert(s.push(x)[s.len() as int] == x);
}

/// The members of a concatenation are the members of the two parts.
pub proof fn lemma_concat_members(a: Seq<u64>, b: Seq<u64>)
    ensures
        forall|u: u64| #![trigger (a + b).contains(u)]
            (a + b).contains(u) <==> a.contains(u) || b.contains(u),
{
    assert forall|u: u64| #[trigger] (a + b).contains(u) implies a.contains(u) || b.contains(
        u,
    ) by {
        let idx = choose|idx: int| 0 <= idx < (a + b).len() && (a + b)[idx] == u;
        if idx < a.len() {
            assert(a[idx] == u);
        } else {
            assert(b[idx - a.len()] == u);
        }
    }
    assert forall|u: u64| a.contains(u) implies (a + b).contains(u) by {
        let idx = choose|idx: int| 0 <= idx < a.len() && a[idx] == u;
        assert((a + b)[idx] == u);
    }
    assert forall|u: u64| b.contains(u) implies (a + b).contains(u) by {
        let idx = choose|idx: int| 0 <= idx < b.len() && b[idx] == u;
        assert((a + b)[a.len() + idx] == u);
    }
}

/// Appending a unit under one key adds exactly that unit to the table's
/// members.
pub proof fn lemma_with_unit_members(m: Map<DepKey, Seq<u64>>, k: DepKey, x: u64)
    ensures
        forall|k2: DepKey, u: u64|
            with_unit(m, k, x).contains_key(k2) && #[trigger] with_unit(m, k, x)[k2].contains(u)
                ==> (m.contains_key(k2) && m[k2].contains(u)) || u == x,
{
    lemma_push_members(units_of(m, k), x);
}

/// Making sure a key is present adds no member to the table.
pub proof fn lemma_with_key_members(m: Map<DepKey, Seq<u64>>, k: DepKey)
    ensures
        forall|k2: DepKey, u: u64|
            with_key(m, k).contains_key(k2) && #[trigger] with_key(m, k)[k2].contains(u)
                ==> m.contains_key(k2) && m[k2].contains(u),
{
}

/// Removing a key removes members only.
pub proof fn lemma_remove_members(m: Map<DepKey, Seq<u64>>, k: DepKey)
    ensures
        forall|k2: DepKey, u: u64|
            m.remove(k).contains_key(k2) && #[trigger] m.remove(k)[k2].contains(u)
                ==> m.contains_key(k2) && m[k2].contains(u),
{
}

/// Copies a list of unit handles.
pub(crate) fn copy_units(v: &Vec<u64>) -> (r: Vec<u64>)
    ensures
        r@ == v@,
{
    let mut r: Vec<u64> = Vec::new();
    let mut j: usize = 0;
    while j < v.len()
        invariant
            j <= v.len(),
            r@ == v@.take(j as int),
        decreases v.len() - j,
    {
        r.push(v[j]);
        j = j + 1;
        proof {
            assert(r@ =~= v@.take(j as int));
        }
    }
    proof {
        assert(v@.take(v.len() as int) =~= v@);
    }
    r
}

impl View for DepTable {
    type V = Map<DepKey, Seq<u64>>;

    closed spec fn view(&self) -> Map<DepKey, Seq<u64>> {
        seq_view(self.entries@)
    }
}

impl DepTable {
    /// Well-formed: no key occupies two slots.
    pub closed spec fn wf(&self) -> bool {
        keys_unique(self.entries@)
    }

    /// An empty table.
    pub fn new() -> (r: DepTable)
        ensures
            r.wf(),
            r@ == Map::<DepKey, Seq<u64>>::empty(),
    {
        DepTable { entries: Vec::new() }
    }

    /// The slot holding key `(k1, k2)`, if any.
    fn find(&self, k1: u64, k2: u64) -> (r: Option<usize>)
        ensures
            match r {
                Some(i) => i < self.entries@.len() && entry_key(self.entries@[i as int]) == (
                k1,
                k2,
                ),
                None => forall|i: int|
                    0 <= i < self.entries@.len() ==> entry_key(self.entries@[i]) != (k1, k2),
            },
    {
        let mut i: usize = 0;
        while i < self.entries.len()
            invariant
                i <= self.entries@.len(),
                forall|j: int| 0 <= j < i ==> entry_key(self.entries@[j]) != (k1, k2),
            decreases self.entries@.len() - i,
        {
            if self.entries[i].k1 == k1 && self.entries[i].k2 == k2 {
                return Some(i);
            }
            i = i + 1;
        }
        None
    }

    /// Appends `unit` to the list under `(k1, k2)`, creating the list when
    /// the key is absent. The unit is appended even when already listed:
    /// entries are never deduplicated.
    pub fn append(&mut self, k1: u64, k2: u64, unit: u64)
        requires
            old(self).wf(),
        ensures
            final(self).wf(),
            final(self)@ == with_unit(old(self)@, (k1, k2), unit),
    {
        let ghost s0 = self.entries@;
        match self.find(k1, k2) {
            Some(i) => {
                proof {
                    lemma_view_index(s0, i as int);
                }
                let mut e = self.entries.remove(i);
                e.units.push(unit);
                let ghost e_snap = e;
                self.entries.insert(i, e);
                proof {
                    assert(self.entries@ =~= s0.update(i as int, e_snap));
                    lemma_view_update(s0, i as int, e_snap);
                }
            },
            None => {
                proof {
                    lemma_view_absent(s0, (k1, k2));
                }
                let mut units: Vec<u64> = Vec::new();
                units.push(unit);
                let e = DepEntry { k1, k2, units };
                let ghost e_snap = e;
                self.entries.push(e);
                proof {
                    lemma_view_push(s0, e_snap);
                    assert(e_snap.units@ =~= Seq::<u64>::empty().push(unit));
                }
            },
        }
    }

    /// Makes sure key `(k1, k2)` is present, with an empty list when new.
    pub fn ensure_key(&mut self, k1: u64, k2: u64)
        requires
            old(self).wf(),
        ensures
            final(self).wf(),
            final(self)@ == with_key(old(self)@, (k1, k2)),
    {
        let ghost s0 = self.entries@;
        match self.find(k1, k2) {
            Some(i) => {
                proof {
                    lemma_view_index(s0, i as int);
                }
            },
            None => {
                proof {
                    lemma_view_absent(s0, (k1, k2));
                }
                let e = DepEntry { k1, k2, units: Vec::new() };
                let ghost e_snap = e;
                self.entries.push(e);
                proof {
                    lemma_view_push(s0, e_snap);
                }
            },
        }
    }

    /// The units under `(k1, k2)` without removing them: the empty list when
    /// the key is absent.
    pub fn units(&self, k1: u64, k2: u64) -> (r: Vec<u64>)
        requires
            self.wf(),
        ensures
            r@ == units_of(self@, (k1, k2)),
    {
        match self.find(k1, k2) {
            Some(i) => {
                proof {
                    lemma_view_index(self.entries@, i as int);
                }
                copy_units(&self.entries[i].units)
            },
            None => {
                proof {
                    lemma_view_absent(self.entries@, (k1, k2));
                }
                Vec::new()
            },
        }
    }

    /// Removes key `(k1, k2)` and returns its units: the empty list, and no
    /// change, when the key is absent.
    pub fn take(&mut self, k1: u64, k2: u64) -> (r: Vec<u64>)
        requires
            old(self).wf(),
        ensures
            final(self).wf(),
            r@ == units_of(old(self)@, (k1, k2)),
            final(self)@ == old(self)@.remove((k1, k2)),
    {
        let ghost s0 = self.entries@;
        match self.find(k1, k2) {
            Some(i) => {
                proof {
                    lemma_view_index(s0, i as int);
                    lemma_view_remove(s0, i as int);
                }
                let e = self.entries.remove(i);
                e.units
            },
            None => {
                proof {
                    lemma_view_absent(s0, (k1, k2));
                    assert(old(self)@.remove((k1, k2)) =~= old(self)@);
                }
                Vec::new()
            },
        }
    }

    /// Empties the table and returns every unit registered under any key,
    /// each as often as it was registered in total.
    pub fn drain_all(&mut self) -> (r: Vec<u64>)
        requires
            old(self).wf(),
        ensures
            final(self).wf(),
            final(self)@ == Map::<DepKey, Seq<u64>>::empty(),
            forall|u: u64| r@.contains(u) <==> in_table(old(self)@, u),
    {
        let ghost s0 = self.entries@;
        let mut r: Vec<u64> = Vec::new();
        let mut i: usize = 0;
        while i < self.entries.len()
            invariant
                self.entries@ == s0,
                i <= s0.len(),
                forall|u: u64|
                    r@.contains(u) <==> exists|j: int, l: int|
                        0 <= j < i && 0 <= l < s0[j].units@.len() && (#[trigger] s0[j].units@[l])
                            == u,
            decreases s0.len() - i,
        {
            let e_units = copy_units(&self.entries[i].units);
            let mut l: usize = 0;
            while l < e_units.len()
                invariant
                    e_units@ == s0[i as int].units@,
                    i < s0.len(),
                    l <= e_units@.len(),
                    forall|u: u64|
                        r@.contains(u) <==> (exists|j: int, m: int|
                            0 <= j < i && 0 <= m < s0[j].units@.len()
                                && (#[trigger] s0[j].units@[m]) == u) || (exists|m: int|
                            0 <= m < l && (#[trigger] s0[i as int].units@[m]) == u),
                decreases e_units@.len() - l,
            {
                let ghost r_prev = r@;
                let ghost l0 = l as int;
                let val = e_units[l];
                r.push(val);
                l = l + 1;
                proof {
                    assert(r@[r@.len() - 1] == val);
                    assert(s0[i as int].units@[l0] == val);
                    assert forall|u: u64| #[trigger] r@.contains(u) implies ((exists|
                        j: int,
                        m: int,
                    |
                        0 <= j < i && 0 <= m < s0[j].units@.len() && (#[trigger] s0[j].units@[m])
                            == u) || (exists|m: int|
                        0 <= m < l && (#[trigger] s0[i as int].units@[m]) == u)) by {
                        let idx = choose|idx: int| 0 <= idx < r@.len() && r@[idx] == u;
                        if idx < r_prev.len() {
                            assert(r_prev[idx] == u);
                            assert(r_prev.contains(u));
                        } else {
                            assert(u == val);
                            assert(0 <= l0 < l && s0[i as int].units@[l0] == u);
                        }
                    }
                    assert forall|u: u64|
                        ((exists|j: int, m: int|
                            0 <= j < i && 0 <= m < s0[j].units@.len() && (
                            #[trigger] s0[j].units@[m]) == u) || (exists|m: int|
                            0 <= m < l && (#[trigger] s0[i as int].units@[m])
                                == u)) implies r@.contains(u) by {
                        if exists|m: int| 0 <= m < l && (#[trigger] s0[i as int].units@[m]) == u {
                            let m = choose|m: int|
                                0 <= m < l && (#[trigger] s0[i as int].units@[m]) == u;
                            if m < l0 {
                                assert(r_prev.contains(u));
                                let idx = choose|idx: int|
                                    0 <= idx < r_prev.len() && r_prev[idx] == u;
                                assert(r@[idx] == u);
                            } else {
                                assert(u == val);
                                assert(r@[r@.len() - 1] == u);
                            }
                        } else {
                            assert(r_prev.contains(u));
                            let idx = choose|idx: int| 0 <= idx < r_prev.len() && r_prev[idx] == u;
                            assert(r@[idx] == u);
                        }
                    }
                }
            }
            i = i + 1;
            proof {
                assert forall|u: u64| r@.contains(u) implies (exists|j: int, m: int|
                    0 <= j < i && 0 <= m < s0[j].units@.len() && (#[trigger] s0[j].units@[m])
                        == u) by {
                    if exists|m: int|
                        0 <= m < e_units@.len() && (#[trigger] s0[i - 1].units@[m]) == u {
                        let m = choose|m: int|
                            0 <= m < e_units@.len() && (#[trigger] s0[i - 1].units@[m]) == u;
                        assert(0 <= i - 1 < i && 0 <= m < s0[i - 1].units@.len() && s0[i
                            - 1].units@[m] == u);
                    }
                }
            }
        }
        self.entries.clear();
        proof {
            lemma_in_table_iff_listed(s0);
        }
        r
    }
}

/// A unit stands in the view of a duplicate-free table exactly when some slot
/// lists it.
proof fn lemma_in_table_iff_listed(s: Seq<DepEntry>)
    requires
        keys_unique(s),
    ensures
        forall|u: u64|
            in_table(seq_view(s), u) <==> exists|j: int, l: int|
                0 <= j < s.len() && 0 <= l < s[j].units@.len() && (#[trigger] s[j].units@[l]) == u,
{
    assert forall|u: u64| in_table(seq_view(s), u) implies exists|j: int, l: int|
        0 <= j < s.len() && 0 <= l < s[j].units@.len() && (#[trigger] s[j].units@[l]) == u by {
        let k = choose|k: DepKey| #[trigger]
            seq_view(s).contains_key(k) && seq_view(s)[k].contains(u);
        lemma_view_dom(s, k);
        let j = choose|j: int| 0 <= j < s.len() && entry_key(#[trigger] s[j]) == k;
        lemma_view_index(s, j);
        let l = choose|l: int| 0 <= l < s[j].units@.len() && s[j].units@[l] == u;
        assert(0 <= l < (s[j]).units@.len() && s[j].units@[l] == u);
    }
    assert forall|u: u64|
        (exists|j: int, l: int|
            0 <= j < s.len() && 0 <= l < s[j].units@.len() && (#[trigger] s[j].units@[l])
                == u) implies in_table(seq_view(s), u) by {
        let (j, l): (int, int) = choose|j: int, l: int|
            0 <= j < s.len() && 0 <= l < s[j].units@.len() && (#[trigger] s[j].units@[l]) == u;
        lemma_view_index(s, j);
        assert(seq_view(s).contains_key(entry_key(s[j])) && seq_view(s)[entry_key(s[j])].contains(
            u,
        ));
    }
}

} // verus!
