//! The filter: one bit array and a fixed number of randomly keyed hash
//! functions.

use crate::bitset::BitSet;
use crate::hashing::{clone_random_state, fresh_random_state, hash_one};
use std::hash::{Hash, RandomState};
use std::marker::PhantomData;
use vstd::prelude::*;

verus! {

/// The capacity, in bits, that keeps the false-positive rate far below one
/// percent after ten thousand insertions with `DEFAULT_HASHES` hash functions.
pub const DEFAULT_BITS: usize = 150000;

/// The number of hash functions that goes with `DEFAULT_BITS`.
pub const DEFAULT_HASHES: usize = 5;

/// The bit that a digest selects in an array of `capacity` bits: the digest,
/// as a `usize`, modulo the capacity.
pub open spec fn bit_index(digest: u64, capacity: usize) -> int
    recommends
        capacity > 0,
{
    ((digest as usize) % capacity) as int
}

/// Whether one of `digests` selects bit `j`.
pub open spec fn marks(digests: Seq<u64>, capacity: usize, j: int) -> bool {
    exists|i: int| 0 <= i < digests.len() && bit_index(#[trigger] digests[i], capacity) == j
}

/// `bits` after the bit of each of `digests` has been set.
pub open spec fn with_marks(bits: Seq<bool>, digests: Seq<u64>, capacity: usize) -> Seq<bool> {
    Seq::new(bits.len(), |j: int| bits[j] || marks(digests, capacity, j))
}

/// Whether the bit of each of `digests` is set in `bits`.
pub open spec fn all_marked(bits: Seq<bool>, digests: Seq<u64>, capacity: usize) -> bool {
    forall|i: int|
        0 <= i < digests.len() ==> bits[bit_index(#[trigger] digests[i], capacity)]
}

/// `bits` after one insertion for each entry of `rounds`, first to last.
pub open spec fn with_rounds(bits: Seq<bool>, rounds: Seq<Seq<u64>>, capacity: usize) -> Seq<bool>
    decreases rounds.len(),
{
    if rounds.len() == 0 {
        bits
    } else {
        with_marks(with_rounds(bits, rounds.drop_last(), capacity), rounds.last(), capacity)
    }
}

/// A bloom filter using an array of `F` bits and `H` distinct hash functions.
/// The constant parameters of this struct should be tuned for the filter's
/// specific use case; under `DEFAULT_BITS` and `DEFAULT_HASHES`, the false
/// positive rate should be far below 1% after 10K items are inserted.
///
/// Its view is the bit array, one `bool` per bit.
#[derive(Debug)]
pub struct BloomFilter<T: Hash, const F: usize, const H: usize> {
    hashers: Vec<RandomState>,
    filter: BitSet,
    _element_type: PhantomData<T>,
}

/// A filter with the default capacity and number of hash functions.
pub type DefaultBloomFilter<T> = BloomFilter<T, DEFAULT_BITS, DEFAULT_HASHES>;

impl<T: Hash, const F: usize, const H: usize> View for BloomFilter<T, F, H> {
    type V = Seq<bool>;

    closed spec fn view(&self) -> Seq<bool> {
        self.filter@
    }
}

impl<T: Hash, const F: usize, const H: usize> BloomFilter<T, F, H> {
    /// The hash functions, in the order in which they are applied.
    pub closed spec fn hash_functions(&self) -> Seq<RandomState> {
        self.hashers@
    }

    /// The filter holds `H` hash functions and an array of `F` bits.
    pub closed spec fn wf(&self) -> bool {
        &&& self.hashers@.len() == H
        &&& self.filter.wf()
        &&& self.filter@.len() == F
    }

    /// An empty filter: freshly keyed hash functions, and no bit set.
    pub fn new() -> (filter: Self)
        ensures
            filter.wf(),
            filter@ == Seq::new(F as nat, |j: int| false),
            filter.hash_functions().len() == H,
    {
        let mut hashers: Vec<RandomState> = Vec::new();
        let mut i: usize = 0;
        while i < H
            invariant
                i <= H,
                hashers@.len() == i,
            decreases H - i,
        {
            hashers.push(fresh_random_state());
            i += 1;
        }
        BloomFilter { hashers, filter: BitSet::new(F), _element_type: PhantomData }
    }

    /// The digest of `item` under each of the filter's hash functions, in
    /// their order.
    fn digests(&self, item: &T) -> (digests: Vec<u64>)
        requires
            self.wf(),
        ensures
            digests@.len() == H,
    {
        let mut digests: Vec<u64> = Vec::new();
        let mut i: usize = 0;
        while i < H
            invariant
                i <= H,
                self.hashers@.len() == H,
                digests@.len() == i,
            decreases H - i,
        {
            digests.push(hash_one(&self.hashers[i], item));
            i += 1;
        }
        digests
    }

    /// Sets the bit of each of `digests`. No bit is cleared, and afterwards
    /// the same digests are reported as present.
    pub fn insert_hashes(&mut self, digests: &[u64])
        requires
            old(self).wf(),
            digests@.len() > 0 ==> F > 0,
        ensures
            final(self).wf(),
            final(self).hash_functions() == old(self).hash_functions(),
            final(self)@ == with_marks(old(self)@, digests@, F),
            all_marked(final(self)@, digests@, F),
            forall|j: int| 0 <= j < F && old(self)@[j] ==> final(self)@[j],
    {
        let mut i: usize = 0;
        while i < digests.len()
            invariant
                i <= digests@.len(),
                digests@.len() > 0 ==> F > 0,
                self.wf(),
                self.hash_functions() == old(self).hash_functions(),
                self@ == with_marks(old(self)@, digests@.take(i as int), F),
            decreases digests@.len() - i,
        {
            let bit: usize = (#[verifier::truncate] (digests[i] as usize)) % F;
            self.filter.set(bit, true);
            proof {
                let done = digests@.take(i as int);
                let next = digests@.take(i + 1);
                assert(next[i as int] == digests@[i as int]);
                assert forall|j: int| 0 <= j < F implies #[trigger] marks(next, F, j) == (marks(
                    done,
                    F,
                    j,
                ) || j == bit) by {
                    if marks(done, F, j) {
                        let k = choose|k: int|
                            0 <= k < done.len() && bit_index(#[trigger] done[k], F) == j;
                        assert(next[k] == done[k]);
                    }
                    if marks(next, F, j) && j != bit {
                        let k = choose|k: int|
                            0 <= k < next.len() && bit_index(#[trigger] next[k], F) == j;
                        assert(done[k] == next[k]);
                    }
                }
                assert(self@ =~= with_marks(old(self)@, next, F));
            }
            i += 1;
        }
        proof {
            assert(digests@.take(digests@.len() as int) =~= digests@);
            law_inserted_is_present(old(self)@, digests@, F);
        }
    }

    /// Whether the bit of each of `digests` is set.
    pub fn contains_hashes(&self, digests: &[u64]) -> (present: bool)
        requires
            self.wf(),
            digests@.len() > 0 ==> F > 0,
        ensures
            present == all_marked(self@, digests@, F),
    {
        let mut i: usize = 0;
        while i < digests.len()
            invariant
                i <= digests@.len(),
                digests@.len() > 0 ==> F > 0,
                self.wf(),
                all_marked(self@, digests@.take(i as int), F),
            decreases digests@.len() - i,
        {
            let bit: usize = (#[verifier::truncate] (digests[i] as usize)) % F;
            if !self.filter.get(bit) {
                return false;
            }
            proof {
                let done = digests@.take(i as int);
                let next = digests@.take(i + 1);
                assert forall|k: int| 0 <= k < next.len() implies self@[bit_index(
                    #[trigger] next[k],
                    F,
                )] by {
                    if k < i {
                        assert(next[k] == done[k]);
                    }
                }
            }
            i += 1;
        }
        proof {
            assert(digests@.take(digests@.len() as int) =~= digests@);
        }
        true
    }

    /// Adds `item`: sets the bit that each of the `H` hash functions selects
    /// for it. Which bits those are is up to the hash functions; whichever
    /// they are, no bit is cleared.
    pub fn insert(&mut self, item: &T)
        requires
            old(self).wf(),
            H > 0 ==> F > 0,
        ensures
            final(self).wf(),
            final(self).hash_functions() == old(self).hash_functions(),
            exists|digests: Seq<u64>|
                digests.len() == H && final(self)@ == #[trigger] with_marks(old(self)@, digests, F),
            forall|j: int| 0 <= j < F && old(self)@[j] ==> final(self)@[j],
    {
        let digests = self.digests(item);
        self.insert_hashes(digests.as_slice());
    }

    /// Whether `item` may have been added: true if and only if every bit
    /// that the `H` hash functions select for it is set. A filter with no bit
    /// set, and at least one hash function, reports nothing as present.
    pub fn contains(&self, item: &T) -> (present: bool)
        requires
            self.wf(),
            H > 0 ==> F > 0,
        ensures
            exists|digests: Seq<u64>|
                digests.len() == H && present == #[trigger] all_marked(self@, digests, F),
            H == 0 ==> present,
            H > 0 && (forall|j: int| 0 <= j < F ==> !self@[j]) ==> !present,
            (forall|j: int| 0 <= j < F ==> self@[j]) ==> present,
    {
        let digests = self.digests(item);
        let present = self.contains_hashes(digests.as_slice());
        proof {
            if H > 0 {
                assert(0 <= bit_index(digests@[0], F) < F);
            }
        }
        present
    }
}

impl<T: Hash, const F: usize, const H: usize> Clone for BloomFilter<T, F, H> {
    /// A copy with the same bits and copies of the hash functions.
    fn clone(&self) -> (copy: Self)
        ensures
            copy@ == self@,
            copy.hash_functions().len() == self.hash_functions().len(),
            self.wf() ==> copy.wf(),
    {
        let mut hashers: Vec<RandomState> = Vec::new();
        let mut i: usize = 0;
        while i < self.hashers.len()
            invariant
                i <= self.hashers@.len(),
                hashers@.len() == i,
            decreases self.hashers@.len() - i,
        {
            hashers.push(clone_random_state(&self.hashers[i]));
            i += 1;
        }
        BloomFilter { hashers, filter: self.filter.clone(), _element_type: PhantomData }
    }
}

impl<T: Hash, const F: usize, const H: usize> Default for BloomFilter<T, F, H> {
    fn default() -> (filter: Self)
        ensures
            filter.wf(),
            filter@ == Seq::new(F as nat, |j: int| false),
            filter.hash_functions().len() == H,
    {
        Self::new()
    }
}

/// No false negatives: once the bits of `digests` have been set, all of them
/// are found set.
pub proof fn law_inserted_is_present(bits: Seq<bool>, digests: Seq<u64>, capacity: usize)
    requires
        bits.len() == capacity,
        digests.len() > 0 ==> capacity > 0,
    ensures
        all_marked(with_marks(bits, digests, capacity), digests, capacity),
{
    assert forall|i: int| 0 <= i < digests.len() implies with_marks(
        bits,
        digests,
        capacity,
    )[bit_index(#[trigger] digests[i], capacity)] by {
        let j = bit_index(digests[i], capacity);
        assert(0 <= j < capacity);
        assert(marks(digests, capacity, j));
    }
}

/// An empty filter rejects everything: with no bit set, no digests at all are
/// found present, provided there is at least one digest to look for.
pub proof fn law_empty_rejects(bits: Seq<bool>, digests: Seq<u64>, capacity: usize)
    requires
        bits.len() == capacity,
        capacity > 0,
        digests.len() > 0,
        forall|j: int| 0 <= j < capacity ==> !bits[j],
    ensures
        !all_marked(bits, digests, capacity),
{
    let j = bit_index(digests[0], capacity);
    assert(0 <= j < capacity);
}

/// Monotonicity: an insertion keeps the length of the array and clears no
/// bit.
pub proof fn law_marks_never_shrink(bits: Seq<bool>, digests: Seq<u64>, capacity: usize)
    ensures
        with_marks(bits, digests, capacity).len() == bits.len(),
        forall|j: int|
            0 <= j < bits.len() && bits[j] ==> #[trigger] with_marks(bits, digests, capacity)[j],
{
}

/// Monotonicity over any sequence of insertions: none of them clears a bit.
pub proof fn law_rounds_never_shrink(bits: Seq<bool>, rounds: Seq<Seq<u64>>, capacity: usize)
    ensures
        with_rounds(bits, rounds, capacity).len() == bits.len(),
        forall|j: int|
            0 <= j < bits.len() && bits[j] ==> #[trigger] with_rounds(bits, rounds, capacity)[j],
    decreases rounds.len(),
{
    if rounds.len() > 0 {
        law_rounds_never_shrink(bits, rounds.drop_last(), capacity);
        law_marks_never_shrink(
            with_rounds(bits, rounds.drop_last(), capacity),
            rounds.last(),
            capacity,
        );
    }
}

/// No false negatives, later on: digests that are found present are still
/// found present after any sequence of further insertions.
pub proof fn law_present_stays_present(
    bits: Seq<bool>,
    digests: Seq<u64>,
    rounds: Seq<Seq<u64>>,
    capacity: usize,
)
    requires
        bits.len() == capacity,
        digests.len() > 0 ==> capacity > 0,
        all_marked(bits, digests, capacity),
    ensures
        all_marked(with_rounds(bits, rounds, capacity), digests, capacity),
{
    law_rounds_never_shrink(bits, rounds, capacity);
    assert forall|i: int| 0 <= i < digests.len() implies with_rounds(
        bits,
        rounds,
        capacity,
    )[bit_index(#[trigger] digests[i], capacity)] by {
        let j = bit_index(digests[i], capacity);
        assert(0 <= j < capacity);
        assert(bits[j]);
    }
}

/// Idempotence: inserting the same digests a second time changes no bit, so
/// every later membership test answers as it would after the first insertion.
pub proof fn law_insert_twice(bits: Seq<bool>, digests: Seq<u64>, capacity: usize)
    ensures
        with_marks(with_marks(bits, digests, capacity), digests, capacity) == with_marks(
            bits,
            digests,
            capacity,
        ),
        forall|query: Seq<u64>|
            all_marked(
                with_marks(with_marks(bits, digests, capacity), digests, capacity),
                query,
                capacity,
            ) == #[trigger] all_marked(with_marks(bits, digests, capacity), query, capacity),
{
    assert(with_marks(with_marks(bits, digests, capacity), digests, capacity) =~= with_marks(
        bits,
        digests,
        capacity,
    ));
}

} // verus!
