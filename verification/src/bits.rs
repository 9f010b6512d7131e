//! Sets of card positions, one bit per card of a collection.
//!
//! The bits live in a `bitvec` bit-vector. Verus cannot look inside one, so
//! the few bit-vector operations used here are stated, not proved; everything
//! built on them is proved.

use bitvec::order::Lsb0;
use bitvec::vec::BitVec;
use vstd::prelude::*;

verus! {

/// The longest position set that can be made: `bitvec` keeps three bits of
/// a machine word for its own use, and the rest counts the bits.
pub const MAX_POSITIONS: usize = usize::MAX / 8;

/// A set of positions below a fixed length, kept as one bit per position.
///
/// Its view is the sequence of its bits: position `i` belongs to the set
/// when bit `i` is raised.
#[verifier::external_body]
pub struct PositionSet {
    bits: BitVec<usize, Lsb0>,
}

/// The bits that the bit-vector inside `set` holds, in order.
pub uninterp spec fn bits_of(set: PositionSet) -> Seq<bool>;

impl View for PositionSet {
    type V = Seq<bool>;

    open spec fn view(&self) -> Seq<bool> {
        bits_of(*self)
    }
}

/// Whether every bit is raised.
pub open spec fn all_raised(bits: Seq<bool>) -> bool {
    forall|i: int| 0 <= i < bits.len() ==> bits[i]
}

/// `BitVec::repeat(false, len)`: a bit-vector of `len` bits, none raised.
/// It panics for a length above `BitSlice::MAX_BITS`, which the bound rules
/// out.
#[verifier::external_body]
fn bitvec_repeat_false(len: usize) -> (set: PositionSet)
    requires
        len <= MAX_POSITIONS,
    ensures
        bits_of(set) == Seq::new(len as nat, |i: int| false),
{
    PositionSet { bits: BitVec::repeat(false, len) }
}

/// `BitVec::len`: the number of bits.
#[verifier::external_body]
fn bitvec_len(set: &PositionSet) -> (len: usize)
    ensures
        len == bits_of(*set).len(),
{
    set.bits.len()
}

/// `Index<usize>` for a bit-vector reads the bit at `index`; it panics past
/// the end.
#[verifier::external_body]
fn bitvec_index(set: &PositionSet, index: usize) -> (bit: bool)
    requires
        index < bits_of(*set).len(),
    ensures
        bit == bits_of(*set)[index as int],
{
    set.bits[index]
}

/// `BitSlice::set(index, true)` raises one bit and leaves the others and the
/// length as they were; it panics past the end.
#[verifier::external_body]
fn bitvec_set_true(set: &mut PositionSet, index: usize)
    requires
        index < bits_of(*old(set)).len(),
    ensures
        bits_of(*final(set)) == bits_of(*old(set)).update(index as int, true),
{
    set.bits.set(index, true)
}

/// `BitSlice::all`: whether no bit is cleared (so `true` when there are no
/// bits).
#[verifier::external_body]
fn bitvec_all(set: &PositionSet) -> (all: bool)
    ensures
        all == all_raised(bits_of(*set)),
{
    set.bits.all()
}

/// Whether `positions` lists, in rising order, exactly the raised bits.
pub open spec fn lists_raised(positions: Seq<usize>, bits: Seq<bool>) -> bool {
    &&& forall|a: int, b: int| 0 <= a < b < positions.len() ==> positions[a] < positions[b]
    &&& forall|p: usize| positions.contains(p) <==> (p < bits.len() && bits[p as int])
}

impl PositionSet {
    /// The empty set over `len` positions.
    pub fn new(len: usize) -> (set: PositionSet)
        requires
            len <= MAX_POSITIONS,
        ensures
            set@.len() == len,
            forall|i: int| 0 <= i < len ==> !set@[i],
    {
        bitvec_repeat_false(len)
    }

    /// The number of positions that the set ranges over.
    pub fn len(&self) -> (len: usize)
        ensures
            len == self@.len(),
    {
        bitvec_len(self)
    }

    /// Whether `position` belongs to the set. A position past the end does
    /// not.
    pub fn contains(&self, position: usize) -> (found: bool)
        ensures
            found == (position < self@.len() && self@[position as int]),
    {
        position < bitvec_len(self) && bitvec_index(self, position)
    }

    /// Adds `position` to the set.
    pub fn insert(&mut self, position: usize)
        requires
            position < old(self)@.len(),
        ensures
            final(self)@ == old(self)@.update(position as int, true),
    {
        bitvec_set_true(self, position)
    }

    /// Whether every position belongs to the set.
    pub fn is_full(&self) -> (full: bool)
        ensures
            full == all_raised(self@),
    {
        bitvec_all(self)
    }

    /// The positions that belong to the set, in rising order.
    pub fn positions(&self) -> (positions: Vec<usize>)
        ensures
            lists_raised(positions@, self@),
    {
        let len = bitvec_len(self);
        let mut positions: Vec<usize> = Vec::new();
        let mut i: usize = 0;
        while i < len
            invariant
                i <= len == self@.len(),
                forall|a: int, b: int| 0 <= a < b < positions.len() ==> positions[a] < positions[b],
                forall|a: int| 0 <= a < positions.len() ==> positions[a] < i,
                forall|p: usize| positions@.contains(p) <==> (p < i && self@[p as int]),
            decreases len - i,
        {
            if bitvec_index(self, i) {
                let ghost before = positions@;
                positions.push(i);
                assert forall|p: usize| positions@.contains(p) <==> (p < i + 1
                    && self@[p as int]) by {
                    if p == i {
                        assert(positions[before.len() as int] == p);
                    } else if before.contains(p) {
                        let k = choose|k: int| 0 <= k < before.len() && before[k] == p;
                        assert(positions[k] == p);
                    }
                }
            }
            i += 1;
        }
        positions
    }
}

} // verus!
