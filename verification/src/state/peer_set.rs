//! Sets of peer indices, kept in a bit set.

use vstd::prelude::*;

verus! {

/// A set of peer indices.
///
/// Trusted: the set is a `bit_set::BitSet`, which Verus does not look
/// into.  Everything that the library knows of it is what the functions of
/// this module say about `peer_set_members`.
#[verifier::external_body]
#[derive(Debug)]
pub struct PeerSet {
    bits: bit_set::BitSet,
}

/// The indices that a set holds.
pub uninterp spec fn peer_set_members(set: PeerSet) -> Set<usize>;

impl View for PeerSet {
    type V = Set<usize>;

    open spec fn view(&self) -> Set<usize> {
        peer_set_members(*self)
    }
}

impl PeerSet {
    /// The empty set, with room for the indices below `nbits`.
    ///
    /// Trusted: `BitSet::with_capacity`, which builds the set from a bit
    /// vector of `nbits` zero bits.
    #[verifier::external_body]
    pub(crate) fn with_capacity(nbits: usize) -> (set: PeerSet)
        ensures
            peer_set_members(set) == Set::<usize>::empty(),
    {
        PeerSet { bits: bit_set::BitSet::with_capacity(nbits) }
    }

    /// Adds `value` and says whether it was new.
    ///
    /// Trusted: `BitSet::insert`, which returns `false` and changes nothing
    /// if the value is present, and else grows the bit vector to hold the
    /// value, sets its bit and returns `true`.  Growing fails for the
    /// largest index of all, which is left out.
    #[verifier::external_body]
    pub(crate) fn insert(&mut self, value: usize) -> (fresh: bool)
        requires
            value < usize::MAX,
        ensures
            fresh == !peer_set_members(*old(self)).contains(value),
            peer_set_members(*final(self)) == peer_set_members(*old(self)).insert(value),
    {
        self.bits.insert(value)
    }

    /// Whether the set holds `value`.
    ///
    /// Trusted: `BitSet::contains`, which reads the bit of the value and
    /// returns `false` for a value beyond the bit vector.
    #[verifier::external_body]
    pub(crate) fn contains(&self, value: usize) -> (present: bool)
        ensures
            present == peer_set_members(*self).contains(value),
    {
        self.bits.contains(value)
    }

    /// Removes all indices.
    ///
    /// Trusted: `BitSet::make_empty`, which clears every bit.
    #[verifier::external_body]
    pub(crate) fn make_empty(&mut self)
        ensures
            peer_set_members(*final(self)) == Set::<usize>::empty(),
    {
        self.bits.make_empty()
    }

    /// A copy of the set.
    ///
    /// Trusted: `BitSet::clone`, which copies the bit vector.
    #[verifier::external_body]
    pub(crate) fn duplicate(&self) -> (copy: PeerSet)
        ensures
            peer_set_members(copy) == peer_set_members(*self),
    {
        PeerSet { bits: self.bits.clone() }
    }
}

} // verus!
