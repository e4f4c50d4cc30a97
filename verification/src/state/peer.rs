//! A peer with its history in the current run.

use super::history::RunHistory;
use crate::keys::PublicKey;
use crate::PeerId;
use vstd::prelude::*;

verus! {

/// Public information about a peer
#[derive(Debug)]
pub struct Peer {
    peer_id: PeerId,
    ltvk: PublicKey,
    next_kepk: Option<PublicKey>,
    history: RunHistory,
}

impl Peer {
    /// The ephemeral key of the next run, if the peer has announced one.
    pub closed spec fn next_key(&self) -> Option<PublicKey> {
        self.next_kepk
    }

    /// The long-term verification key.
    pub closed spec fn verification_key(&self) -> PublicKey {
        self.ltvk
    }

    /// The history of the peer in the current run.
    pub closed spec fn run_history(&self) -> RunHistory {
        self.history
    }

    pub fn new(peer_id: PeerId, ltvk: PublicKey, next_kepk: PublicKey, num_peers: usize) -> (peer:
        Self)
        ensures
            peer.id() == peer_id,
            peer.next_key() == Some(next_kepk),
            peer.verification_key() == ltvk,
            peer.run_history().wf(),
            peer.run_history().exponential_part() is None,
            peer.run_history().main_part() is None,
            peer.run_history().keys() == super::history::no_keys(),
    {
        Peer {
            peer_id: peer_id,
            ltvk: ltvk,
            next_kepk: Some(next_kepk),
            history: RunHistory::new(num_peers),
        }
    }

    /// Notes the ephemeral key that the peer has announced for the next
    /// run.
    pub fn push_kepk(&mut self, kepk: PublicKey)
        requires
            old(self).next_key() is None,
        ensures
            final(self).next_key() == Some(kepk),
            final(self).id() == old(self).id(),
            final(self).verification_key() == old(self).verification_key(),
            final(self).run_history() == old(self).run_history(),
    {
        self.next_kepk = Some(kepk);
    }

    /// Takes the ephemeral key of the next run: the next run begins.
    pub fn pop_kepk(&mut self) -> (kepk: PublicKey)
        requires
            old(self).next_key() is Some,
        ensures
            kepk == old(self).next_key()->0,
            final(self).next_key() is None,
            final(self).id() == old(self).id(),
            final(self).verification_key() == old(self).verification_key(),
            final(self).run_history() == old(self).run_history(),
    {
        let was = self.next_kepk.unwrap();
        self.next_kepk = None;
        was
    }

    pub fn ltvk(&self) -> (key: &PublicKey)
        ensures
            *key == self.verification_key(),
    {
        &self.ltvk
    }

    /// The identifier of the peer.
    pub closed spec fn id(&self) -> PeerId {
        self.peer_id
    }

    /// The identifier of the peer.
    pub fn peer_id(&self) -> (id: PeerId)
        ensures
            id == self.id(),
    {
        self.peer_id
    }

    /// The history of the peer in the current run.
    pub fn history(&self) -> (history: &RunHistory)
        ensures
            *history == self.run_history(),
    {
        &self.history
    }
}

} // verus!
