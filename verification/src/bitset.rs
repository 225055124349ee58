//! A fixed-length array of flags, packed eight to a byte.

use vstd::prelude::*;

verus! {

/// The flag that `byte` holds at `offset`, counted from its least significant bit.
pub open spec fn bit_of(byte: u8, offset: u8) -> bool {
    (byte >> offset) & 1 == 1
}

/// The number of bytes that hold `len` flags: `len / 8` rounded up, and one
/// byte where `len` is zero.
pub open spec fn bytes_for(len: usize) -> nat {
    if len == 0 {
        1
    } else {
        ((len - 1) / 8 + 1) as nat
    }
}

/// Flipping the bit at `offset` inverts that flag and leaves the other seven.
proof fn lemma_flip_bit(byte: u8, offset: u8)
    by (bit_vector)
    requires
        offset < 8,
    ensures
        forall|j: u8|
            j < 8 ==> ((((byte ^ (1u8 << offset)) >> j) & 1 == 1) == (if j == offset {
                !((byte >> j) & 1 == 1)
            } else {
                (byte >> j) & 1 == 1
            })),
{
}

/// `bits` after the flag at each index of `order` has been made `val`, first
/// to last.
pub open spec fn set_each(bits: Seq<bool>, order: Seq<int>, val: bool) -> Seq<bool>
    decreases order.len(),
{
    if order.len() == 0 {
        bits
    } else {
        set_each(bits, order.drop_last(), val).update(order.last(), val)
    }
}

/// Fixed-size set of booleans represented by a vector of bytes.
///
/// Its view is the sequence of its flags, one `bool` per index.
#[derive(Debug)]
pub struct BitSet {
    bits: Vec<u8>,
    len: usize,
}

impl View for BitSet {
    type V = Seq<bool>;

    closed spec fn view(&self) -> Seq<bool> {
        Seq::new(self.len as nat, |i: int| bit_of(self.bits@[i / 8], (i % 8) as u8))
    }
}

impl Clone for BitSet {
    /// A copy with the same flags.
    fn clone(&self) -> (copy: Self)
        ensures
            copy@ == self@,
            copy.byte_count() == self.byte_count(),
            copy.wf() == self.wf(),
    {
        let copy = BitSet { bits: self.bits.clone(), len: self.len };
        proof {
            assert(copy.bits@ =~= self.bits@);
        }
        copy
    }
}

impl BitSet {
    /// The number of bytes that back the flags.
    pub closed spec fn byte_count(&self) -> nat {
        self.bits@.len()
    }

    /// The storage has exactly the bytes that the length calls for.
    pub closed spec fn wf(&self) -> bool {
        self.bits@.len() == bytes_for(self.len)
    }

    /// A set of `len` flags, all of them false.
    pub fn new(len: usize) -> (set: Self)
        ensures
            set.wf(),
            set@ == Seq::new(len as nat, |i: int| false),
            set.byte_count() == bytes_for(len),
    {
        let bytes: usize = len.saturating_sub(1) / 8 + 1;
        let set = BitSet { bits: vec![0u8; bytes], len };
        proof {
            assert(!bit_of(0u8, 0u8) && !bit_of(0u8, 1u8) && !bit_of(0u8, 2u8) && !bit_of(0u8, 3u8)
                && !bit_of(0u8, 4u8) && !bit_of(0u8, 5u8) && !bit_of(0u8, 6u8) && !bit_of(0u8, 7u8))
                by (bit_vector);
            assert(set@ =~= Seq::new(len as nat, |i: int| false));
        }
        set
    }

    /// The number of flags.
    pub fn len(&self) -> (n: usize)
        ensures
            n == self@.len(),
    {
        self.len
    }

    /// The flag at index `bit`.
    pub fn get(&self, bit: usize) -> (flag: bool)
        requires
            self.wf(),
            bit < self@.len(),
        ensures
            flag == self@[bit as int],
    {
        let byte_idx: usize = bit / 8;
        let bit_idx: u8 = (bit % 8) as u8;
        (self.bits[byte_idx] >> bit_idx) & 1 == 1
    }

    /// Makes the flag at index `bit` equal to `val`; every other flag keeps
    /// its value.
    pub fn set(&mut self, bit: usize, val: bool)
        requires
            old(self).wf(),
            bit < old(self)@.len(),
        ensures
            final(self).wf(),
            final(self)@ == old(self)@.update(bit as int, val),
            final(self).byte_count() == old(self).byte_count(),
    {
        let byte_idx: usize = bit / 8;
        let bit_idx: u8 = (bit % 8) as u8;
        let byte: u8 = self.bits[byte_idx];
        if ((byte >> bit_idx) & 1 == 1) != val {
            proof {
                lemma_flip_bit(byte, bit_idx);
            }
            self.bits.set(byte_idx, byte ^ (1u8 << bit_idx));
        }
        proof {
            assert forall|i: int| 0 <= i < self.len implies #[trigger] self@[i] == old(self)@.update(
                bit as int,
                val,
            )[i] by {
                let j: u8 = (i % 8) as u8;
                assert(j < 8);
            }
            assert(self@ =~= old(self)@.update(bit as int, val));
        }
    }
}

/// A flag reads as it was last set, and setting it changes no other flag.
pub proof fn law_set_then_get(bits: Seq<bool>, bit: int, val: bool)
    requires
        0 <= bit < bits.len(),
    ensures
        bits.update(bit, val).len() == bits.len(),
        bits.update(bit, val)[bit] == val,
        bits.update(bit, val).update(bit, !val)[bit] == !val,
        forall|i: int| 0 <= i < bits.len() && i != bit ==> bits.update(bit, val)[i] == bits[i],
{
}

/// Setting a flag to the value that it has changes nothing.
pub proof fn law_set_same(bits: Seq<bool>, bit: int)
    requires
        0 <= bit < bits.len(),
    ensures
        bits.update(bit, bits[bit]) == bits,
{
    assert(bits.update(bit, bits[bit]) =~= bits);
}

/// After the flags at the indices of `order` have been set to `val`, each
/// index that occurs in `order` reads `val`, and each other flag is as it was.
pub proof fn law_set_each(bits: Seq<bool>, order: Seq<int>, val: bool)
    requires
        forall|k: int| 0 <= k < order.len() ==> 0 <= #[trigger] order[k] < bits.len(),
    ensures
        set_each(bits, order, val).len() == bits.len(),
        forall|i: int|
            0 <= i < bits.len() ==> #[trigger] set_each(bits, order, val)[i] == (if order.contains(
                i,
            ) {
                val
            } else {
                bits[i]
            }),
    decreases order.len(),
{
    if order.len() > 0 {
        let rest = order.drop_last();
        law_set_each(bits, rest, val);
        assert forall|i: int| 0 <= i < bits.len() implies #[trigger] set_each(bits, order, val)[i]
            == (if order.contains(i) {
            val
        } else {
            bits[i]
        }) by {
            if rest.contains(i) {
                let k = choose|k: int| 0 <= k < rest.len() && rest[k] == i;
                assert(order[k] == i);
            }
            if order.last() == i {
                assert(order[order.len() - 1] == i);
            }
            if order.contains(i) && order.last() != i {
                let k = choose|k: int| 0 <= k < order.len() && order[k] == i;
                assert(rest[k] == i);
            }
        }
    }
}

/// After every flag has been set to false, in whatever order, none reads true.
pub proof fn law_all_cleared(bits: Seq<bool>, order: Seq<int>)
    requires
        forall|k: int| 0 <= k < order.len() ==> 0 <= #[trigger] order[k] < bits.len(),
        forall|i: int| 0 <= i < bits.len() ==> order.contains(i),
    ensures
        set_each(bits, order, false) == Seq::new(bits.len(), |i: int| false),
{
    law_set_each(bits, order, false);
    assert(set_each(bits, order, false) =~= Seq::new(bits.len(), |i: int| false));
}

} // verus!
