//! The broadcast store: the node-local, deduplicated, order-insensitive
//! set of integers observed in `broadcast` requests. The store is viewed
//! as the set of its members; insertion order never shows in a contract.
//!
//! The surrounding transport loop is strictly sequential, so exclusive
//! borrows are the store's mutual-exclusion discipline: no `record` can
//! overlap a `snapshot`.

use vstd::prelude::*;

verus! {

/// The growable set of values observed by this node. Created empty at
/// process start, mutated only by [`BroadcastStore::record`], read only by
/// [`BroadcastStore::snapshot`].
pub struct BroadcastStore {
    seen: Vec<u32>,
}

impl View for BroadcastStore {
    type V = Set<u32>;

    closed spec fn view(&self) -> Set<u32> {
        self.seen@.to_set()
    }
}

impl BroadcastStore {
    /// The backing vector never holds a value twice.
    pub closed spec fn wf(&self) -> bool {
        self.seen@.no_duplicates()
    }

    /// A new, empty store.
    pub fn new() -> (r: Self)
        ensures
            r.wf(),
            r@ == Set::<u32>::empty(),
    {
        let r = BroadcastStore { seen: Vec::new() };
        proof {
            assert(r.seen@.to_set() =~= Set::<u32>::empty());
        }
        r
    }

    /// Whether `value` has been recorded.
    pub fn contains(&self, value: u32) -> (r: bool)
        ensures
            r == self@.contains(value),
    {
        let n = self.seen.len();
        let mut i: usize = 0;
        while i < n
            invariant
                n == self.seen.len(),
                i <= n,
                forall|k: int| 0 <= k < i ==> self.seen@[k] != value,
            decreases n - i,
        {
            if self.seen[i] == value {
                proof {
                    assert(self.seen@.contains(value));
                }
                return true;
            }
            i += 1;
        }
        proof {
            assert(!self.seen@.contains(value));
        }
        false
    }

    /// Inserts `value` into the store. Idempotent: recording a value that
    /// is already present changes nothing observable.
    pub fn record(&mut self, value: u32)
        requires
            old(self).wf(),
        ensures
            final(self).wf(),
            final(self)@ == old(self)@.insert(value),
    {
        if self.contains(value) {
            proof {
                assert(old(self)@.insert(value) =~= old(self)@);
            }
        } else {
            self.seen.push(value);
            proof {
                assert(self.seen@ == old(self).seen@.push(value));
                assert forall|k: int| 0 <= k < old(self).seen@.len() implies self.seen@[k]
                    != value by {
                    assert(old(self).seen@.contains(old(self).seen@[k]));
                }
                assert(self.seen@.no_duplicates());
                assert(self.seen@.to_set() =~= old(self).seen@.to_set().insert(value)) by {
                    assert forall|x: u32| self.seen@.contains(x) implies old(self).seen@.contains(x)
                        || x == value by {
                        let k = choose|k: int| 0 <= k < self.seen@.len() && self.seen@[k] == x;
                        if k < old(self).seen@.len() {
                            assert(old(self).seen@[k] == x);
                        }
                    }
                    assert forall|x: u32|
                        old(self).seen@.contains(x) || x == value implies self.seen@.contains(
                        x,
                    ) by {
                        if old(self).seen@.contains(x) {
                            let k = choose|k: int|
                                0 <= k < old(self).seen@.len() && old(self).seen@[k] == x;
                            assert(self.seen@[k] == x);
                        } else {
                            assert(self.seen@[old(self).seen@.len() as int] == value);
                        }
                    }
                }
            }
        }
    }

    /// The current members of the store, in an order callers must treat as
    /// insignificant: the result carries no duplicates and holds exactly
    /// the members of the store's set.
    pub fn snapshot(&self) -> (r: Vec<u32>)
        requires
            self.wf(),
        ensures
            r@.to_set() == self@,
            r@.no_duplicates(),
    {
        let n = self.seen.len();
        let mut r: Vec<u32> = Vec::new();
        let mut i: usize = 0;
        while i < n
            invariant
                n == self.seen.len(),
                i <= n,
                r@ == self.seen@.subrange(0, i as int),
            decreases n - i,
        {
            r.push(self.seen[i]);
            proof {
                assert(r@ =~= self.seen@.subrange(0, i as int + 1));
            }
            i += 1;
        }
        proof {
            assert(r@ =~= self.seen@);
        }
        r
    }
}

/// The store contents reached by a sequence of `record` calls, starting
/// from the set `s0`: each call inserts its value.
pub open spec fn record_all(s0: Set<u32>, vs: Seq<u32>) -> Set<u32>
    decreases vs.len(),
{
    if vs.len() == 0 {
        s0
    } else {
        record_all(s0.insert(vs[0]), vs.drop_first())
    }
}

/// A run of `record` calls adds exactly the set of recorded values.
pub proof fn lemma_record_all_adds_set(s0: Set<u32>, vs: Seq<u32>)
    ensures
        record_all(s0, vs) == s0 + vs.to_set(),
    decreases vs.len(),
{
    if vs.len() == 0 {
        assert(record_all(s0, vs) =~= s0 + vs.to_set());
    } else {
        lemma_record_all_adds_set(s0.insert(vs[0]), vs.drop_first());
        assert forall|x: u32| vs.to_set().contains(x) implies x == vs[0]
            || vs.drop_first().to_set().contains(x) by {
            let k = choose|k: int| 0 <= k < vs.len() && vs[k] == x;
            if k > 0 {
                assert(vs.drop_first()[k - 1] == x);
            }
        }
        assert forall|x: u32| vs.drop_first().to_set().contains(x) implies vs.to_set().contains(
            x,
        ) by {
            let k = choose|k: int| 0 <= k < vs.drop_first().len() && vs.drop_first()[k] == x;
            assert(vs[k + 1] == x);
        }
        assert(record_all(s0, vs) =~= s0 + vs.to_set());
    }
}

/// Recording is commutative: two runs of `record` calls that record the
/// same values, in any order and with any repetition counts, leave the
/// store with the same contents.
pub proof fn lemma_record_order_irrelevant(s0: Set<u32>, vs1: Seq<u32>, vs2: Seq<u32>)
    requires
        vs1.to_multiset() == vs2.to_multiset(),
    ensures
        record_all(s0, vs1) == record_all(s0, vs2),
{
    lemma_record_all_adds_set(s0, vs1);
    lemma_record_all_adds_set(s0, vs2);
    vs1.to_multiset_ensures();
    vs2.to_multiset_ensures();
    assert forall|x: u32| vs1.to_set().contains(x) implies vs2.to_set().contains(x) by {
        assert(vs1.contains(x));
        assert(vs1.to_multiset().count(x) > 0);
    }
    assert forall|x: u32| vs2.to_set().contains(x) implies vs1.to_set().contains(x) by {
        assert(vs2.contains(x));
        assert(vs2.to_multiset().count(x) > 0);
    }
    assert(vs1.to_set() =~= vs2.to_set());
}

/// Recording a value twice is the same as recording it once: the second
/// insertion changes nothing.
pub proof fn lemma_record_idempotent(s0: Set<u32>, v: u32)
    ensures
        s0.insert(v).insert(v) == s0.insert(v),
{
    assert(s0.insert(v).insert(v) =~= s0.insert(v));
}

/// A snapshot holds exactly one occurrence of each recorded value: in a
/// duplicate-free sequence whose set contains `v`, exactly one position
/// holds `v`.
pub proof fn lemma_snapshot_single_occurrence(s: Seq<u32>, v: u32)
    requires
        s.no_duplicates(),
        s.to_set().contains(v),
    ensures
        s.to_multiset().count(v) == 1,
{
    s.to_multiset_ensures();
    s.lemma_multiset_has_no_duplicates();
    assert(s.contains(v));
    assert(s.to_multiset().count(v) > 0);
}

} // verus!
