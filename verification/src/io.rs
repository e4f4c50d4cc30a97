//! The authenticated message channel.
//!
//! The transport hands over frames, each with the index of the peer that it
//! came from.  A frame is a message in the layout of the module `wire`
//! followed by a compact signature.  The channel turns every frame into the
//! payload of the message or into the marker `Invalid`:  a peer learns
//! nothing from the channel about which check its frame failed.
//!
//! How senders are identified depends on the broadcast mechanism.  The
//! transport is responsible for mapping its sender identifier to a
//! peer index, and the channel rejects frames whose header names another
//! peer.

use crate::keys::{
    blake2s, blake2s_256, bytes_eq, secp256k1_ecdsa_signature, secp256k1_ecdsa_verifies,
    secp256k1_secret_key_valid, SecretKey, COMPACT_SIGNATURE_SIZE,
};
use crate::messages::{
    decoded, payload_of, peer_index_of, sequence_num_of, session_of, Message, MessageModel, Payload,
    PublicKey,
};
use crate::wire::{append, Layout, Wire};
use crate::{PeerIndex, SequenceNum, SessionId};
use vstd::prelude::*;
use vstd::slice::slice_subrange;

verus! {

/// The prefix that separates the digests of signed protocol messages from
/// all other uses of the signature scheme: `DICEMIX_SIGNED_MESSAGE`, filled
/// up with underscores.
pub const MAGIC_MESSAGE_PREFIX: [u8; 32] = [
    68, 73, 67, 69, 77, 73, 88, 95, 83, 73, 71, 78, 69, 68, 95, 77, 69, 83, 83, 65, 71, 69, 95, 95,
    95, 95, 95, 95, 95, 95, 95, 95,
];

/// The digest that is signed for the message bytes `message`.
pub open spec fn signed_digest(message: Seq<u8>) -> Seq<u8> {
    blake2s_256(MAGIC_MESSAGE_PREFIX@ + message)
}

/// Computes the digest that is signed for `message`.
pub fn compute_signed_digest(message: &[u8]) -> (digest: [u8; 32])
    ensures
        digest@ == signed_digest(message@),
{
    let mut input: Vec<u8> = Vec::new();
    append(&mut input, MAGIC_MESSAGE_PREFIX.as_slice());
    append(&mut input, message);
    assert(input@ =~= MAGIC_MESSAGE_PREFIX@ + message@);
    blake2s(input.as_slice())
}

/// The frame of a message: the message as it is laid out on the wire,
/// followed by the compact signature of its digest under `key`.  `None`
/// for a key that the curve does not accept.
pub fn seal(message: &Message, key: &SecretKey) -> (frame: Option<Vec<u8>>)
    ensures
        frame is Some == secp256k1_secret_key_valid(key@),
        frame is Some ==> frame->0@ == Message::encoding(message.model())
            + secp256k1_ecdsa_signature(signed_digest(Message::encoding(message.model())), key@),
{
    let mut frame = message.encode();
    let digest = compute_signed_digest(frame.as_slice());
    match key.sign(&digest) {
        Some(signature) => {
            append(&mut frame, signature.as_slice());
            Some(frame)
        },
        None => None,
    }
}

/// What the channel makes of a frame.
#[derive(Clone, PartialEq, Eq, Debug)]
pub enum IncomingPayload {
    Valid(Payload),
    Invalid,
}

/// The state of a channel as plain values.
pub struct Channel {
    /// The session that the channel belongs to.
    pub session_id: Seq<u8>,
    /// The verification key of every peer of the roster; `None` for a peer
    /// that was excluded.
    pub keys: Seq<Option<Seq<u8>>>,
    /// The sequence number that the next message of every peer must carry.
    pub expected: Seq<SequenceNum>,
}

impl Channel {
    /// The message bytes of a frame: all but the signature.
    pub open spec fn message_bytes(frame: Seq<u8>) -> Seq<u8> {
        frame.subrange(0, frame.len() - COMPACT_SIGNATURE_SIZE)
    }

    /// The signature of a frame: its last 64 bytes.
    pub open spec fn signature_bytes(frame: Seq<u8>) -> Seq<u8> {
        frame.subrange(frame.len() - COMPACT_SIGNATURE_SIZE, frame.len() as int)
    }

    /// The message of the frame if the channel accepts the frame from
    /// `peer`.  A frame is accepted if it is long enough to hold a
    /// signature, its message bytes decode, the message belongs to this
    /// session, `peer` is on the roster, the message carries the sequence
    /// number expected of `peer` and the index of `peer`, and the signature
    /// verifies for the digest of the message bytes under the key of `peer`.
    /// The last sequence number of all is never accepted: it could not be
    /// followed by another.
    pub open spec fn accepts(self, peer: PeerIndex, frame: Seq<u8>) -> Option<MessageModel> {
        if frame.len() < COMPACT_SIGNATURE_SIZE {
            None
        } else {
            match decoded(Self::message_bytes(frame)) {
                None => None,
                Some(message) => {
                    if session_of(message) == self.session_id && peer < self.keys.len()
                        && self.keys[peer as int] is Some && sequence_num_of(message)
                        == self.expected[peer as int] && self.expected[peer as int] < u32::MAX
                        && peer_index_of(message) == peer && secp256k1_ecdsa_verifies(
                        signed_digest(Self::message_bytes(frame)),
                        Self::signature_bytes(frame),
                        self.keys[peer as int]->0,
                    ) {
                        Some(message)
                    } else {
                        None
                    }
                },
            }
        }
    }

    /// The channel after `frame` was handed over for `peer`: an accepted
    /// frame advances the sequence number expected of `peer` by one, any
    /// other frame changes nothing.
    pub open spec fn step(self, peer: PeerIndex, frame: Seq<u8>) -> Channel {
        if self.accepts(peer, frame) is Some {
            Channel {
                expected: self.expected.update(
                    peer as int,
                    (self.expected[peer as int] + 1) as u32,
                ),
                ..self
            }
        } else {
            self
        }
    }

    /// The channel after `peer` was excluded.
    pub open spec fn without(self, peer: PeerIndex) -> Channel {
        if peer < self.keys.len() {
            Channel { keys: self.keys.update(peer as int, None), ..self }
        } else {
            self
        }
    }
}

/// Authenticates the frames of a session.
pub struct ReadAuthenticatedPayloads {
    session_id: SessionId,
    ltvks: Vec<Option<PublicKey>>,
    sequence_nums: Vec<SequenceNum>,
}

impl View for ReadAuthenticatedPayloads {
    type V = Channel;

    closed spec fn view(&self) -> Channel {
        Channel {
            session_id: self.session_id@,
            keys: Seq::new(
                self.ltvks@.len(),
                |i: int|
                    match self.ltvks@[i] {
                        Some(key) => Some(key@),
                        None => None,
                    },
            ),
            expected: self.sequence_nums@,
        }
    }
}

impl ReadAuthenticatedPayloads {
    /// The channel holds one expected sequence number for every peer.
    pub open spec fn wf(&self) -> bool {
        self@.keys.len() == self@.expected.len()
    }

    /// Creates a new `ReadAuthenticatedPayloads` for the peers with the
    /// long-term verification keys `ltvks`.  The first message of every
    /// peer must carry the sequence number 0.
    pub fn new(session_id: SessionId, ltvks: Vec<PublicKey>) -> (channel: Self)
        ensures
            channel.wf(),
            channel@.session_id == session_id@,
            channel@.keys == Seq::new(ltvks@.len(), |i: int| Some(ltvks@[i]@)),
            channel@.expected == Seq::new(ltvks@.len(), |i: int| 0u32),
    {
        Self::starting_at(session_id, ltvks, 0)
    }

    /// Creates a new `ReadAuthenticatedPayloads` in which the first message
    /// of every peer must carry the sequence number `initial`, the value
    /// that the peers have agreed on.
    pub fn starting_at(session_id: SessionId, ltvks: Vec<PublicKey>, initial: SequenceNum) -> (channel:
        Self)
        ensures
            channel.wf(),
            channel@.session_id == session_id@,
            channel@.keys == Seq::new(ltvks@.len(), |i: int| Some(ltvks@[i]@)),
            channel@.expected == Seq::new(ltvks@.len(), |i: int| initial),
    {
        let mut keys: Vec<Option<PublicKey>> = Vec::new();
        let mut sequence_nums: Vec<SequenceNum> = Vec::new();
        let mut i: usize = 0;
        while i < ltvks.len()
            invariant
                i <= ltvks@.len(),
                keys@.len() == i,
                sequence_nums@.len() == i,
                forall|j: int| 0 <= j < i ==> keys@[j] == Some(ltvks@[j]),
                forall|j: int| 0 <= j < i ==> sequence_nums@[j] == initial,
            decreases ltvks@.len() - i,
        {
            keys.push(Some(ltvks[i]));
            sequence_nums.push(initial);
            i += 1;
        }
        let channel = Self { session_id, ltvks: keys, sequence_nums };
        assert(channel@.keys =~= Seq::new(ltvks@.len(), |i: int| Some(ltvks@[i]@)));
        assert(channel@.expected =~= Seq::new(ltvks@.len(), |i: int| initial));
        channel
    }

    /// The number of peers of the roster, excluded peers included.
    pub fn num_peers(&self) -> (n: usize)
        ensures
            n == self@.keys.len(),
    {
        self.ltvks.len()
    }

    /// The sequence number that the next message of `peer` must carry.
    pub fn expected_sequence_num(&self, peer: PeerIndex) -> (n: Option<SequenceNum>)
        requires
            self.wf(),
        ensures
            n == if peer < self@.expected.len() {
                Some(self@.expected[peer as int])
            } else {
                None
            },
    {
        if (peer as usize) < self.sequence_nums.len() {
            Some(self.sequence_nums[peer as usize])
        } else {
            None
        }
    }

    /// Takes `peer` off the roster: from now on all its frames are
    /// invalid.
    pub fn exclude(&mut self, peer: PeerIndex)
        requires
            old(self).wf(),
        ensures
            final(self).wf(),
            final(self)@ == old(self)@.without(peer),
    {
        if (peer as usize) < self.ltvks.len() {
            self.ltvks.set(peer as usize, None);
            assert(self@.keys =~= old(self)@.keys.update(peer as int, None));
        }
    }

    /// Authenticates one frame that the transport delivered under the index
    /// `peer`.
    pub fn authenticate(&mut self, peer: PeerIndex, frame: &[u8]) -> (incoming: IncomingPayload)
        requires
            old(self).wf(),
        ensures
            final(self).wf(),
            final(self)@ == old(self)@.step(peer, frame@),
            match old(self)@.accepts(peer, frame@) {
                Some(message) => incoming matches IncomingPayload::Valid(payload)
                    && payload.model() == payload_of(message),
                None => incoming is Invalid,
            },
    {
        // Check size
        if frame.len() < COMPACT_SIGNATURE_SIZE {
            return IncomingPayload::Invalid;
        }
        // Split bytes

        let split_pos: usize = frame.len() - COMPACT_SIGNATURE_SIZE;
        let msg_bytes = slice_subrange(frame, 0, split_pos);
        let sig_bytes = slice_subrange(frame, split_pos, frame.len());

        // Try to deserialize
        let message = match Message::decode(msg_bytes) {
            Some(message) => message,
            None => {
                return IncomingPayload::Invalid;
            },
        };

        // Check session ID
        if !bytes_eq(message.header.session_id.as_slice(), self.session_id.as_slice()) {
            return IncomingPayload::Invalid;
        }
        // Check that the peer is on the roster

        let index: usize = peer as usize;
        if index >= self.ltvks.len() {
            return IncomingPayload::Invalid;
        }
        let ltvk = match self.ltvks[index] {
            Some(ltvk) => ltvk,
            None => {
                return IncomingPayload::Invalid;
            },
        };

        // Check sequence number
        let expected: SequenceNum = self.sequence_nums[index];
        if message.header.sequence_num != expected || expected == u32::MAX {
            return IncomingPayload::Invalid;
        }
        // Check peer index

        if message.header.peer_index != peer {
            return IncomingPayload::Invalid;
        }
        // Verify signature

        let digest = compute_signed_digest(msg_bytes);
        if !ltvk.verifies(&digest, sig_bytes) {
            return IncomingPayload::Invalid;
        }
        self.sequence_nums.set(index, expected + 1);
        assert(self@.keys =~= old(self)@.keys);
        IncomingPayload::Valid(message.payload)
    }
}

/// A message with a valid signature whose sequence number is not the
/// expected one is invalid, and the expected sequence number stays.
pub proof fn lemma_wrong_sequence_num_rejected(channel: Channel, peer: PeerIndex, frame: Seq<u8>)
    requires
        channel.keys.len() == channel.expected.len(),
        frame.len() >= COMPACT_SIGNATURE_SIZE,
        decoded(Channel::message_bytes(frame)) is Some,
        peer < channel.expected.len(),
        sequence_num_of(decoded(Channel::message_bytes(frame))->0) != channel.expected[peer as int],
    ensures
        channel.accepts(peer, frame) is None,
        channel.step(peer, frame) == channel,
{
}

/// An accepted message advances the sequence number expected of its peer by
/// exactly one and leaves everything else as it is.
pub proof fn lemma_accepted_advances_by_one(channel: Channel, peer: PeerIndex, frame: Seq<u8>)
    requires
        channel.keys.len() == channel.expected.len(),
        channel.accepts(peer, frame) is Some,
    ensures
        channel.step(peer, frame).expected[peer as int] == channel.expected[peer as int] + 1,
        forall|other: int|
            0 <= other < channel.expected.len() && other != peer ==> channel.step(
                peer,
                frame,
            ).expected[other] == channel.expected[other],
        channel.step(peer, frame).keys == channel.keys,
        channel.step(peer, frame).session_id == channel.session_id,
{
}

/// A frame that was accepted is invalid when it is delivered again: its
/// sequence number is no longer the expected one.
pub proof fn lemma_replay_rejected(channel: Channel, peer: PeerIndex, frame: Seq<u8>)
    requires
        channel.keys.len() == channel.expected.len(),
        channel.accepts(peer, frame) is Some,
    ensures
        channel.step(peer, frame).accepts(peer, frame) is None,
        channel.step(peer, frame).step(peer, frame) == channel.step(peer, frame),
{
}

/// No frame of a peer that is not on the roster is accepted.
pub proof fn lemma_excluded_rejected(channel: Channel, peer: PeerIndex, frame: Seq<u8>)
    requires
        channel.keys.len() == channel.expected.len(),
    ensures
        channel.without(peer).accepts(peer, frame) is None,
{
}

} // verus!
