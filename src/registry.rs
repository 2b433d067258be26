use vstd::prelude::*;

verus! {

/// A part that the store acknowledged, with the integrity token it returned.
pub struct CompletedPart {
    pub part_number: u64,
    pub token: String,
}

/// Why the recorded parts cannot finish an upload.
#[derive(Debug, PartialEq, Eq, Structural)]
pub enum ConsistencyError {
    /// The number of recorded parts differs from the number of parts sent.
    CountMismatch { expected: u64, found: u64 },
    /// The lowest part number in `1..=expected` that nothing was recorded for.
    /// With the right count, a duplicate or a stray number always leaves one.
    Missing(u64),
    /// More parts were produced than part numbers can count.
    TooManyParts,
}

/// Every part number in `1..=n` was recorded, and exactly `n` records exist.
pub open spec fn covers_exactly(records: Seq<(u64, Seq<char>)>, n: nat) -> bool {
    &&& records.len() == n
    &&& forall|k: nat| 1 <= k <= n ==> has_part(records, k)
}

pub open spec fn has_part(records: Seq<(u64, Seq<char>)>, k: nat) -> bool {
    exists|j: int| 0 <= j < records.len() && records[j].0 == k
}

/// The part numbers and tokens of a list of completed parts.
pub open spec fn part_list(parts: Seq<CompletedPart>) -> Seq<(u64, Seq<char>)> {
    parts.map_values(|p: CompletedPart| (p.part_number, p.token@))
}

/// `list` holds parts `1, 2, ...` in this order, each one taken from `records`.
pub open spec fn ordered_from(list: Seq<(u64, Seq<char>)>, records: Seq<(u64, Seq<char>)>) -> bool {
    forall|k: int|
        0 <= k < list.len() ==> (#[trigger] list[k]).0 == k + 1 && records.contains(list[k])
}

/// Collects the acknowledgements of uploaded parts, in the order they arrive.
pub struct PartRegistry {
    records: Vec<CompletedPart>,
}

impl View for PartRegistry {
    type V = Seq<(u64, Seq<char>)>;

    closed spec fn view(&self) -> Seq<(u64, Seq<char>)> {
        part_list(self.records@)
    }
}

impl PartRegistry {
    pub fn new() -> (r: PartRegistry)
        ensures
            r@ == Seq::<(u64, Seq<char>)>::empty(),
    {
        let r = PartRegistry { records: Vec::new() };
        assert(r@ =~= Seq::<(u64, Seq<char>)>::empty());
        r
    }

    pub fn len(&self) -> (r: usize)
        ensures
            r == self@.len(),
    {
        self.records.len()
    }

    pub fn record(&mut self, part_number: u64, token: String)
        ensures
            final(self)@ == old(self)@.push((part_number, token@)),
    {
        let ghost t = token@;
        self.records.push(CompletedPart { part_number, token });
        assert(final(self)@ =~= old(self)@.push((part_number, t)));
    }

    /// Orders the records by part number and checks that they are exactly the
    /// parts `1..=expected`.
    pub fn finalize(&self, expected: u64) -> (r: Result<Vec<CompletedPart>, ConsistencyError>)
        ensures
            r is Ok <==> covers_exactly(self@, expected as nat),
            r matches Ok(parts) ==> {
                &&& parts@.len() == expected
                &&& ordered_from(part_list(parts@), self@)
            },
            r matches Err(e) ==> match e {
                ConsistencyError::CountMismatch { expected: x, found } => {
                    &&& x == expected
                    &&& found == self@.len()
                    &&& self@.len() != expected
                },
                ConsistencyError::Missing(k) => {
                    &&& self@.len() == expected
                    &&& 1 <= k <= expected
                    &&& !has_part(self@, k as nat)
                    &&& forall|m: nat| 1 <= m < k ==> has_part(self@, m)
                },
                ConsistencyError::TooManyParts => false,
            },
    {
        let n = self.records.len();
        if n as u64 != expected {
            return Err(ConsistencyError::CountMismatch { expected, found: n as u64 });
        }
        let mut slots: Vec<Option<usize>> = Vec::new();
        let mut i: usize = 0;
        while i < n
            invariant
                i <= n,
                n == self@.len(),
                slots@.len() == i,
                forall|k: int| 0 <= k < i ==> slots@[k] is None,
            decreases n - i,
        {
            slots.push(None);
            i = i + 1;
        }
        let mut j: usize = 0;
        while j < n
            invariant
                j <= n,
                n == self@.len(),
                n == expected,
                slots@.len() == n,
                forall|k: int|
                    0 <= k < n ==> match #[trigger] slots@[k] {
                        Some(idx) => idx < n && self@[idx as int].0 == k + 1,
                        None => forall|m: int| 0 <= m < j ==> self@[m].0 != k + 1,
                    },
            decreases n - j,
        {
            let p = self.records[j].part_number;
            if 1 <= p && p <= expected {
                let slot = (p - 1) as usize;
                if slots[slot].is_none() {
                    slots.set(slot, Some(j));
                }
            }
            j = j + 1;
        }
        let mut parts: Vec<CompletedPart> = Vec::new();
        let mut k: usize = 0;
        while k < n
            invariant
                k <= n,
                n == self@.len(),
                n == expected,
                slots@.len() == n,
                forall|q: int|
                    0 <= q < n ==> match #[trigger] slots@[q] {
                        Some(idx) => idx < n && self@[idx as int].0 == q + 1,
                        None => forall|m: int| 0 <= m < n ==> self@[m].0 != q + 1,
                    },
                forall|m: nat| 1 <= m <= k ==> has_part(self@, m),
                parts@.len() == k,
                ordered_from(part_list(parts@), self@),
            decreases n - k,
        {
            match slots[k] {
                Some(idx) => {
                    let token = self.records[idx].token.clone();
                    proof {
                        assert(self@[idx as int] == (
                            self.records@[idx as int].part_number,
                            self.records@[idx as int].token@,
                        ));
                        assert forall|m: nat| 1 <= m <= k + 1 implies has_part(self@, m) by {
                            if m == k + 1 {
                                assert(self@[idx as int].0 == m);
                            }
                        }
                    }
                    let ghost before = parts@;
                    parts.push(CompletedPart { part_number: (k + 1) as u64, token });
                    proof {
                        assert(part_list(parts@) =~= part_list(before).push(self@[idx as int]));
                    }
                },
                None => {
                    proof {
                        assert forall|j: int| 0 <= j < self@.len() implies self@[j].0 != k + 1 by {
                        }
                        assert(!has_part(self@, (k + 1) as nat));
                    }
                    return Err(ConsistencyError::Missing((k + 1) as u64));
                },
            }
            k = k + 1;
        }
        Ok(parts)
    }
}

} // verus!
