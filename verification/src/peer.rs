//! A peer with the ephemeral keys of its current and its next run.

use crate::keys::PublicKey;
use std::collections::VecDeque;
use vstd::prelude::*;

verus! {

/// The most ephemeral keys that a peer holds: that of the current run and
/// that of the next.
pub const MAX_KEYS: usize = 2;

#[derive(Clone, Debug)]
pub struct Peer {
    ltvk: PublicKey,
    kepks: VecDeque<PublicKey>,
}

impl Peer {
    /// The long-term verification key.
    pub closed spec fn verification_key(&self) -> PublicKey {
        self.ltvk
    }

    /// The ephemeral keys, the oldest first.
    pub closed spec fn keys(&self) -> Seq<PublicKey> {
        self.kepks@
    }

    /// The peer holds no more than two ephemeral keys.
    pub open spec fn wf(&self) -> bool {
        self.keys().len() <= MAX_KEYS
    }

    pub fn new(ltvk: &PublicKey) -> (peer: Self)
        ensures
            peer.wf(),
            peer.verification_key() == *ltvk,
            peer.keys() == Seq::<PublicKey>::empty(),
    {
        Peer { ltvk: *ltvk, kepks: VecDeque::with_capacity(2) }
    }

    /// Adds the ephemeral key of a coming run.
    pub fn push_kepk(&mut self, kepk: PublicKey)
        requires
            old(self).keys().len() < MAX_KEYS,
        ensures
            final(self).wf(),
            final(self).keys() == old(self).keys().push(kepk),
            final(self).verification_key() == old(self).verification_key(),
    {
        self.kepks.push_back(kepk);
    }

    /// The ephemeral key of the current run.
    pub fn get_kepk(&self) -> (kepk: &PublicKey)
        requires
            self.keys().len() > 0,
        ensures
            *kepk == self.keys()[0],
    {
        &self.kepks[0]
    }

    /// Drops the ephemeral key of the current run: the next run begins.
    pub fn shift_keys(&mut self)
        requires
            old(self).wf(),
            old(self).keys().len() > 0,
        ensures
            final(self).wf(),
            final(self).keys() == old(self).keys().skip(1),
            final(self).verification_key() == old(self).verification_key(),
    {
        let _ = self.kepks.pop_front();
        assert(self.kepks@ =~= old(self).kepks@.skip(1));
    }

    /// The long-term verification key.
    pub fn ltvk(&self) -> (key: &PublicKey)
        ensures
            *key == self.verification_key(),
    {
        &self.ltvk
    }
}

} // verus!
