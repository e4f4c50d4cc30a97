//! The keyed pseudorandom generator from which DC-net pads are derived.
//!
//! A generator is fully described by three plain values: the 32-byte key,
//! the round number that selects the ChaCha stream, and the position in
//! that stream counted in 32-bit words.  Every read names the bytes it
//! returns as a function of exactly these three values and the length, so
//! two peers that hold the same key derive the same pads.

use vstd::bytes::{
    spec_u128_from_le_bytes, spec_u32_from_le_bytes, spec_u64_from_le_bytes, u128_from_le_bytes,
    u32_from_le_bytes, u64_from_le_bytes,
};
use vstd::prelude::*;

verus! {

/// The word position at which every round starts.
pub const ROUND_START: u128 = 1;

/// The first `len` bytes that the ChaCha20 generator of `rand` yields once
/// it is seeded with `key`, switched to stream `stream` and moved to word
/// position `word_pos`.
pub uninterp spec fn chacha20_keystream(key: Seq<u8>, stream: u64, word_pos: u128, len: nat) -> Seq<
    u8,
>;

/// Overwrites `dest` with ChaCha20 key stream.
///
/// Trusted: seeds `rand::rngs::ChaCha20Rng` with `SeedableRng::from_seed`,
/// positions it with `set_stream` and then `set_word_pos`, and reads with
/// `Rng::fill_bytes`, which fills the whole buffer.  The contract only
/// gives the bytes read their name and says that the length is kept.
#[verifier::external_body]
fn keystream(key: &[u8; 32], stream: u64, word_pos: u128, dest: &mut Vec<u8>)
    ensures
        final(dest)@ == chacha20_keystream(key@, stream, word_pos, old(dest)@.len()),
        final(dest)@.len() == old(dest)@.len(),
{
    let mut rng = <rand::rngs::ChaCha20Rng as rand::SeedableRng>::from_seed(*key);
    rng.set_stream(stream);
    rng.set_word_pos(word_pos);
    rand::Rng::fill_bytes(&mut rng, dest.as_mut_slice());
}

/// The number of word positions, `2^128`.
pub open spec fn positions() -> int {
    0x1_0000_0000_0000_0000_0000_0000_0000_0000int
}

/// The state of a generator as plain values.
pub struct Stream {
    pub key: Seq<u8>,
    pub round: u32,
    pub word_pos: u128,
}

impl Stream {
    /// The next `len` bytes of the stream.
    pub open spec fn bytes(self, len: nat) -> Seq<u8> {
        chacha20_keystream(self.key, self.round as u64, self.word_pos, len)
    }

    /// The number of 32-bit words that a read of `len` bytes uses up.
    pub open spec fn words_for(len: nat) -> nat {
        (len + 3) / 4
    }

    /// The state after `words` more words were consumed; positions wrap
    /// around at `2^128`.
    pub open spec fn skip(self, words: nat) -> Stream {
        Stream {
            key: self.key,
            round: self.round,
            word_pos: ((self.word_pos + words) % positions()) as u128,
        }
    }

    /// Skipping in two steps is skipping once by the sum.
    pub proof fn lemma_skip_skip(self, a: nat, b: nat)
        ensures
            self.skip(a).skip(b) == self.skip(a + b),
    {
        vstd::arithmetic::div_mod::lemma_add_mod_noop_right(
            b as int,
            self.word_pos + a,
            positions(),
        );
    }

    /// Skipping nothing changes nothing.
    pub proof fn lemma_skip_zero(self)
        ensures
            self.skip(0) == self,
    {
    }
}

/// A ChaCha20 generator keyed by a symmetric key and a round number.
pub struct DiceMixRng {
    key: [u8; 32],
    round: u32,
    word_pos: u128,
}

impl View for DiceMixRng {
    type V = Stream;

    closed spec fn view(&self) -> Stream {
        Stream { key: self.key@, round: self.round, word_pos: self.word_pos }
    }
}

impl DiceMixRng {
    /// A generator for `key`, prepared for round 0.
    pub fn new(key: &[u8; 32]) -> (rng: DiceMixRng)
        ensures
            rng@ == (Stream { key: key@, round: 0, word_pos: ROUND_START }),
    {
        let mut dc_rng = DiceMixRng { key: *key, round: 0, word_pos: 0 };
        dc_rng.prepare_round(0);
        dc_rng
    }

    /// Moves to the start of the stream of `round`.
    pub fn prepare_round(&mut self, round: u32)
        ensures
            final(self)@ == (Stream { key: old(self)@.key, round, word_pos: ROUND_START }),
    {
        // The stream is selected by the round; the position is set after it,
        // since selecting a stream rewinds the generator.
        self.round = round;
        self.word_pos = ROUND_START;
    }

    /// Overwrites `dest` with the next bytes of the stream.  A read always
    /// ends on a word boundary: the unused bytes of the last word are
    /// dropped.
    pub fn fill_bytes(&mut self, dest: &mut Vec<u8>)
        ensures
            final(dest)@ == old(self)@.bytes(old(dest)@.len()),
            final(dest)@.len() == old(dest)@.len(),
            final(self)@ == old(self)@.skip(Stream::words_for(old(dest)@.len())),
    {
        keystream(&self.key, self.round as u64, self.word_pos, dest);
        let len: usize = dest.len();
        let words: usize = len / 4 + (if len % 4 == 0 {
            0
        } else {
            1
        });
        self.word_pos = self.word_pos.wrapping_add(words as u128);
    }

    /// The same as `fill_bytes`; reading never fails.
    pub fn try_fill_bytes(&mut self, dest: &mut Vec<u8>) -> (r: Result<(), ()>)
        ensures
            r is Ok,
            final(dest)@ == old(self)@.bytes(old(dest)@.len()),
            final(dest)@.len() == old(dest)@.len(),
            final(self)@ == old(self)@.skip(Stream::words_for(old(dest)@.len())),
    {
        self.fill_bytes(dest);
        Ok(())
    }

    /// The next `len` bytes of the stream in a fresh buffer.
    pub fn read(&mut self, len: usize) -> (out: Vec<u8>)
        ensures
            out@ == old(self)@.bytes(len as nat),
            out@.len() == len,
            final(self)@ == old(self)@.skip(Stream::words_for(len as nat)),
    {
        let mut out: Vec<u8> = Vec::new();
        let mut i: usize = 0;
        while i < len
            invariant
                i <= len,
                out@.len() == i,
            decreases len - i,
        {
            out.push(0);
            i += 1;
        }
        self.fill_bytes(&mut out);
        out
    }

    /// The next word of the stream, read as a little-endian integer.
    pub fn next_u32(&mut self) -> (x: u32)
        ensures
            x == spec_u32_from_le_bytes(old(self)@.bytes(4)),
            final(self)@ == old(self)@.skip(1),
    {
        let word = self.read(4);
        u32_from_le_bytes(word.as_slice())
    }

    /// The next two words of the stream, read as a little-endian integer.
    pub fn next_u64(&mut self) -> (x: u64)
        ensures
            x == spec_u64_from_le_bytes(old(self)@.bytes(8)),
            final(self)@ == old(self)@.skip(2),
    {
        let words = self.read(8);
        u64_from_le_bytes(words.as_slice())
    }

    /// The next four words of the stream, read as a little-endian integer.
    pub fn next_u128(&mut self) -> (x: u128)
        ensures
            x == spec_u128_from_le_bytes(old(self)@.bytes(16)),
            final(self)@ == old(self)@.skip(4),
    {
        let words = self.read(16);
        u128_from_le_bytes(words.as_slice())
    }
}

} // verus!
