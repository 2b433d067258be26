use vstd::prelude::*;

verus! {

/// The permits of a pool: how many exist, and who holds them.
pub struct PoolModel {
    pub capacity: nat,
    /// The holders of the permits given out, each at most once.
    pub held: Seq<u64>,
}

impl PoolModel {
    pub open spec fn wf(self) -> bool {
        &&& self.capacity > 0
        &&& self.held.no_duplicates()
        &&& self.held.len() <= self.capacity
    }

    pub open spec fn has_free(self) -> bool {
        self.held.len() < self.capacity
    }
}

/// A bounded set of permits for operations that run at the same time; each
/// permit is held by one operation, named by a number, until it is released.
pub struct ResourcePool {
    capacity: usize,
    held: Vec<u64>,
}

impl View for ResourcePool {
    type V = PoolModel;

    closed spec fn view(&self) -> PoolModel {
        PoolModel { capacity: self.capacity as nat, held: self.held@ }
    }
}

/// Removes `x` from a list without repeats.
fn remove_holder(v: &mut Vec<u64>, x: u64) -> (found: bool)
    requires
        old(v)@.no_duplicates(),
    ensures
        found == old(v)@.contains(x),
        final(v)@ == old(v)@.remove_value(x),
        !found ==> final(v)@ == old(v)@,
        final(v)@.no_duplicates(),
        found ==> final(v)@.len() + 1 == old(v)@.len(),
        forall|y: u64| final(v)@.contains(y) <==> (old(v)@.contains(y) && y != x),
{
    let mut i: usize = 0;
    while i < v.len()
        invariant
            i <= v@.len(),
            v@ == old(v)@,
            v@.no_duplicates(),
            forall|j: int| 0 <= j < i ==> v@[j] != x,
        decreases v@.len() - i,
    {
        if v[i] == x {
            let ghost before = v@;
            v.remove(i);
            proof {
                before.remove_ensures(i as int);
                assert(before[i as int] == x);
                assert(before.contains(x));
                before.index_of_first_ensures(x);
                assert(before.index_of_first(x) == Some(i as int));
                let after = v@;
                assert forall|y: u64| after.contains(y) <==> (before.contains(y) && y != x) by {
                    if after.contains(y) {
                        let k = choose|k: int| 0 <= k < after.len() && after[k] == y;
                        if k < i {
                            assert(before[k] == y);
                        } else {
                            assert(before[k + 1] == y);
                        }
                        assert(y != x);
                    }
                    if before.contains(y) && y != x {
                        let k = choose|k: int| 0 <= k < before.len() && before[k] == y;
                        if k < i {
                            assert(after[k] == y);
                        } else {
                            assert(k != i);
                            assert(after[k - 1] == y);
                        }
                    }
                }
                assert forall|a: int, b: int|
                    0 <= a < after.len() && 0 <= b < after.len() && a != b implies after[a]
                    != after[b] by {
                    let a2 = if a < i { a } else { a + 1 };
                    let b2 = if b < i { b } else { b + 1 };
                    assert(after[a] == before[a2]);
                    assert(after[b] == before[b2]);
                }
            }
            return true;
        }
        i = i + 1;
    }
    proof {
        old(v)@.index_of_first_ensures(x);
    }
    false
}

impl ResourcePool {
    pub fn new(capacity: usize) -> (r: ResourcePool)
        requires
            capacity > 0,
        ensures
            r@.wf(),
            r@ == (PoolModel { capacity: capacity as nat, held: Seq::empty() }),
    {
        ResourcePool { capacity, held: Vec::new() }
    }

    pub fn has_free(&self) -> (r: bool)
        ensures
            r == self@.has_free(),
    {
        self.held.len() < self.capacity
    }

    /// How many permits are held.
    pub fn in_use(&self) -> (r: usize)
        ensures
            r == self@.held.len(),
    {
        self.held.len()
    }

    /// Gives a free permit to `holder`.
    pub fn acquire(&mut self, holder: u64)
        requires
            old(self)@.wf(),
            old(self)@.has_free(),
            !old(self)@.held.contains(holder),
        ensures
            final(self)@.wf(),
            final(self)@ == (PoolModel { held: old(self)@.held.push(holder), ..old(self)@ }),
    {
        self.held.push(holder);
        proof {
            let h = self@.held;
            assert forall|a: int, b: int|
                0 <= a < h.len() && 0 <= b < h.len() && a != b implies h[a] != h[b] by {
                if a == h.len() - 1 {
                    assert(old(self)@.held[b] == h[b]);
                } else if b == h.len() - 1 {
                    assert(old(self)@.held[a] == h[a]);
                }
            }
        }
    }

    /// Takes back the permit of `holder`; `false` when it holds none, and then
    /// nothing changes.
    pub fn release(&mut self, holder: u64) -> (found: bool)
        requires
            old(self)@.wf(),
        ensures
            final(self)@.wf(),
            found == old(self)@.held.contains(holder),
            final(self)@ == (PoolModel {
                held: old(self)@.held.remove_value(holder),
                ..old(self)@
            }),
            !found ==> final(self)@ == old(self)@,
            found ==> final(self)@.held.len() + 1 == old(self)@.held.len(),
            forall|y: u64|
                #[trigger] final(self)@.held.contains(y) <==> (old(self)@.held.contains(y)
                    && y != holder),
    {
        remove_holder(&mut self.held, holder)
    }
}

} // verus!
