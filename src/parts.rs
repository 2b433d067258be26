use vstd::prelude::*;
use vstd::arithmetic::div_mod::{lemma_basic_div_specific_divisor, lemma_div_plus_one};

verus! {

/// The parts a byte sequence is cut into for a multipart upload: consecutive
/// pieces of `part_size` bytes, the last of which may be shorter. An empty
/// sequence has no parts.
pub open spec fn split_parts(s: Seq<u8>, part_size: nat) -> Seq<Seq<u8>>
    decreases s.len(),
{
    if part_size == 0 || s.len() == 0 {
        Seq::empty()
    } else if s.len() <= part_size {
        seq![s]
    } else {
        seq![s.take(part_size as int)] + split_parts(s.skip(part_size as int), part_size)
    }
}

/// `ceil(len / part_size)`: how many parts a source of `len` bytes has.
pub open spec fn part_count(len: nat, part_size: nat) -> nat
    recommends
        part_size > 0,
{
    if part_size == 0 {
        0
    } else {
        ((len + part_size - 1) as int / part_size as int) as nat
    }
}

/// Every part holds between 1 and `part_size` bytes, and every part but the
/// last holds exactly `part_size`.
pub open spec fn parts_well_shaped(parts: Seq<Seq<u8>>, part_size: nat) -> bool {
    forall|i: int|
        0 <= i < parts.len() ==> {
            &&& 0 < (#[trigger] parts[i]).len() <= part_size
            &&& i < parts.len() - 1 ==> parts[i].len() == part_size
        }
}

/// Part numbers `1..=n` in ascending order.
pub open spec fn part_numbers(n: nat) -> Seq<nat> {
    Seq::new(n, |i: int| (i + 1) as nat)
}

proof fn lemma_flatten_cons(head: Seq<u8>, tail: Seq<Seq<u8>>)
    ensures
        (seq![head] + tail).flatten() == head + tail.flatten(),
{
    let whole = seq![head] + tail;
    assert(whole.first() == head);
    assert(whole.drop_first() =~= tail);
}

/// Putting the parts of a source back together, in ascending part order,
/// gives back the source exactly.
pub proof fn lemma_parts_reassemble(s: Seq<u8>, part_size: nat)
    requires
        part_size > 0,
    ensures
        split_parts(s, part_size).flatten() == s,
    decreases s.len(),
{
    if s.len() == 0 {
        assert(split_parts(s, part_size).flatten() =~= s);
    } else if s.len() <= part_size {
        seq![s].lemma_flatten_one_element();
    } else {
        let rest = s.skip(part_size as int);
        lemma_parts_reassemble(rest, part_size);
        lemma_flatten_cons(s.take(part_size as int), split_parts(rest, part_size));
        assert(s.take(part_size as int) + rest =~= s);
    }
}

/// A source of `len` bytes has `ceil(len / part_size)` parts, numbered
/// `1..=N` without gaps or repeats; all are full but the last, which holds
/// between 1 and `part_size` bytes. This holds for an empty source (no parts)
/// and for one of exactly `part_size` bytes (one part).
pub proof fn lemma_part_count(s: Seq<u8>, part_size: nat)
    requires
        part_size > 0,
    ensures
        split_parts(s, part_size).len() == part_count(s.len(), part_size),
        parts_well_shaped(split_parts(s, part_size), part_size),
        part_numbers(split_parts(s, part_size).len()).to_set() == Set::new(
            |k: nat| 1 <= k <= part_count(s.len(), part_size),
        ),
        part_numbers(split_parts(s, part_size).len()).no_duplicates(),
    decreases s.len(),
{
    let ps = part_size as int;
    lemma_basic_div_specific_divisor(ps);
    if s.len() == 0 {
    } else if s.len() <= part_size {
        lemma_div_plus_one(s.len() - 1, ps);
    } else {
        let rest = s.skip(ps);
        lemma_part_count(rest, part_size);
        lemma_div_plus_one(rest.len() + ps - 1, ps);
        let parts = split_parts(s, part_size);
        let tail = split_parts(rest, part_size);
        assert(parts == seq![s.take(ps)] + tail);
        assert forall|i: int| 0 <= i < parts.len() implies {
            &&& 0 < (#[trigger] parts[i]).len() <= part_size
            &&& i < parts.len() - 1 ==> parts[i].len() == part_size
        } by {
            if i > 0 {
                assert(parts[i] == tail[i - 1]);
            }
        }
    }
    let n = split_parts(s, part_size).len();
    let nums = part_numbers(n);
    assert forall|k: nat| nums.to_set().contains(k) <==> 1 <= k <= part_count(s.len(), part_size) by {
        if 1 <= k <= n {
            assert(nums[k - 1] == k);
        }
    }
    assert(nums.to_set() =~= Set::new(|k: nat| 1 <= k <= part_count(s.len(), part_size)));
}

/// Cutting is unambiguous: a sequence of well-shaped parts is exactly what
/// cutting their concatenation gives.
pub proof fn lemma_split_of_well_shaped(parts: Seq<Seq<u8>>, part_size: nat)
    requires
        part_size > 0,
        parts_well_shaped(parts, part_size),
    ensures
        split_parts(parts.flatten(), part_size) == parts,
    decreases parts.len(),
{
    if parts.len() == 0 {
        assert(split_parts(parts.flatten(), part_size) =~= parts);
    } else {
        let head = parts[0];
        let tail = parts.drop_first();
        assert forall|i: int| 0 <= i < tail.len() implies {
            &&& 0 < (#[trigger] tail[i]).len() <= part_size
            &&& i < tail.len() - 1 ==> tail[i].len() == part_size
        } by {
            assert(tail[i] == parts[i + 1]);
        }
        lemma_split_of_well_shaped(tail, part_size);
        let s = parts.flatten();
        assert(s == head + tail.flatten());
        if parts.len() == 1 {
            assert(tail.flatten() =~= Seq::<u8>::empty());
            assert(s =~= head);
            assert(split_parts(s, part_size) =~= parts);
        } else {
            assert(head.len() == part_size);
            assert(tail.flatten().len() > 0) by {
                assert(tail[0].len() > 0);
                assert(tail.flatten() == tail[0] + tail.drop_first().flatten());
            }
            assert(s.take(part_size as int) =~= head);
            assert(s.skip(part_size as int) =~= tail.flatten());
            assert(split_parts(s, part_size) =~= parts);
        }
    }
}

} // verus!
