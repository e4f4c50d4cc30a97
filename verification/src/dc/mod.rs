//! Dining-cryptographers networks over pluggable groups.
//!
//! A DC-net vector is a fixed-length sequence of group elements.  The run
//! state machine only ever uses the three capabilities collected here:
//! combining two vectors, inverting one, and overwriting one with pad
//! material from a keyed generator.

use crate::rng::{DiceMixRng, Stream};
use vstd::prelude::*;

pub mod fp;
pub mod xor;

verus! {

/// What randomizing does to a value.  Only the shape of the value matters:
/// the lengths of all vectors inside.
pub trait Shape: Sized {
    /// The number of 32-bit words of key stream that randomizing a value of
    /// this shape consumes.
    spec fn words(&self) -> nat;

    /// `out` is what a value of the shape of `self` becomes when it is
    /// randomized from the generator state `stream`.
    spec fn randomized(&self, stream: Stream, out: &Self) -> bool;
}

/// Values that can be overwritten with generator output while their shape
/// stays as it is.
pub trait Randomize: Shape {
    /// Replaces the contents by generator output.
    fn randomize(&mut self, rng: &mut DiceMixRng)
        ensures
            old(self).randomized(old(rng)@, final(self)),
            final(rng)@ == old(rng)@.skip(old(self).words()),
    ;
}

/// The words that randomizing the first `n` items of `items` consumes.
pub open spec fn words_before<T: Shape>(items: Seq<T>, n: nat) -> nat
    decreases n,
{
    if n == 0 {
        0
    } else {
        words_before(items, (n - 1) as nat) + items[n - 1].words()
    }
}

impl Shape for u8 {
    open spec fn words(&self) -> nat {
        1
    }

    /// A byte is the low byte of the next word.
    open spec fn randomized(&self, stream: Stream, out: &u8) -> bool {
        *out == vstd::bytes::spec_u32_from_le_bytes(stream.bytes(4)) % 256
    }
}

impl Randomize for u8 {
    fn randomize(&mut self, rng: &mut DiceMixRng) {
        let word: u32 = rng.next_u32();
        *self = (word % 256) as u8;
    }
}

impl<T: Shape> Shape for Vec<T> {
    open spec fn words(&self) -> nat {
        words_before(self@, self@.len())
    }

    /// The items are randomized one after the other, each from the state
    /// that the items before it left behind.
    open spec fn randomized(&self, stream: Stream, out: &Vec<T>) -> bool {
        &&& out@.len() == self@.len()
        &&& forall|i: int|
            0 <= i < self@.len() ==> (#[trigger] self@[i]).randomized(
                stream.skip(words_before(self@, i as nat)),
                &out@[i],
            )
    }
}

impl<T: Randomize> Randomize for Vec<T> {
    fn randomize(&mut self, rng: &mut DiceMixRng) {
        let n: usize = self.len();
        let mut i: usize = 0;
        proof {
            old(rng)@.lemma_skip_zero();
        }
        while i < n
            invariant
                i <= n,
                n == old(self)@.len(),
                self@.len() == n,
                rng@ == old(rng)@.skip(words_before(old(self)@, i as nat)),
                forall|j: int|
                    0 <= j < i ==> (#[trigger] old(self)@[j]).randomized(
                        old(rng)@.skip(words_before(old(self)@, j as nat)),
                        &self@[j],
                    ),
                forall|j: int| i <= j < n ==> self@[j] == old(self)@[j],
            decreases n - i,
        {
            proof {
                old(rng)@.lemma_skip_skip(
                    words_before(old(self)@, i as nat),
                    old(self)@[i as int].words(),
                );
            }
            self[i].randomize(rng);
            i += 1;
        }
    }
}

/// The algebra of a DC-net group: what its vectors hold and what the group
/// operations make of single elements.
pub trait Group: Shape {
    /// The type of a single group element.
    type Element;

    /// The elements of the vector.
    spec fn elements(&self) -> Seq<Self::Element>;

    /// The vector holds consistent group elements only.
    spec fn valid(&self) -> bool;

    /// The group operation on single elements.
    spec fn element_combine(a: Self::Element, b: Self::Element) -> Self::Element;

    /// The inverse of a single element.
    spec fn element_invert(a: Self::Element) -> Self::Element;

    /// The neutral element.
    spec fn element_zero() -> Self::Element;

    /// The pad of `len` elements that a generator in state `stream` yields.
    spec fn pad_elements(len: nat, stream: Stream) -> Seq<Self::Element>;
}

/// The capabilities of a DC-net group: vectors of equal length can be
/// combined, a vector can be inverted, and a vector can be overwritten with
/// pad material of its own shape.
pub trait DcGroup: Group + Randomize {
    /// The vector of `len` neutral elements.
    fn zero(len: usize) -> (out: Self)
        ensures
            out.valid(),
            out.elements().len() == len,
            forall|i: int| 0 <= i < len ==> #[trigger] out.elements()[i] == Self::element_zero(),
    ;

    /// Combines two vectors of equal length element by element.
    fn combine(self, rhs: Self) -> (out: Self)
        requires
            self.valid(),
            rhs.valid(),
            self.elements().len() == rhs.elements().len(),
        ensures
            out.valid(),
            out.elements().len() == self.elements().len(),
            forall|i: int|
                0 <= i < self.elements().len() ==> #[trigger] out.elements()[i]
                    == Self::element_combine(self.elements()[i], rhs.elements()[i]),
    ;

    /// Inverts every element.
    fn invert(self) -> (out: Self)
        requires
            self.valid(),
        ensures
            out.valid(),
            out.elements().len() == self.elements().len(),
            forall|i: int|
                0 <= i < self.elements().len() ==> #[trigger] out.elements()[i]
                    == Self::element_invert(self.elements()[i]),
    ;

    /// A copy of the vector.
    fn duplicate(&self) -> (out: Self)
        ensures
            out.elements() == self.elements(),
            out.valid() == self.valid(),
    ;

    /// Randomizing yields the pad of the vector's length: consistent
    /// elements that depend on the length and the generator state alone.
    proof fn lemma_randomized_is_pad(&self, stream: Stream, out: &Self)
        requires
            self.randomized(stream, out),
        ensures
            out.valid(),
            out.elements() == Self::pad_elements(self.elements().len(), stream),
            Self::pad_elements(self.elements().len(), stream).len() == self.elements().len(),
    ;
}

/// The element-wise combination of two sequences of equal length.
pub open spec fn combined<G: Group>(a: Seq<G::Element>, b: Seq<G::Element>) -> Seq<G::Element> {
    Seq::new(a.len(), |i: int| G::element_combine(a[i], b[i]))
}

/// The element-wise inverse of a sequence.
pub open spec fn inverted<G: Group>(a: Seq<G::Element>) -> Seq<G::Element> {
    Seq::new(a.len(), |i: int| G::element_invert(a[i]))
}

/// What is left of `masked` when `pad` is taken off again.
pub open spec fn unmasked<G: Group>(masked: Seq<G::Element>, pad: Seq<G::Element>) -> Seq<
    G::Element,
> {
    combined::<G>(masked, inverted::<G>(pad))
}

/// Removes a pad from a masked vector: combines the vector with the
/// inverse of the pad.
pub fn unmask<G: DcGroup>(masked: G, pad: G) -> (out: G)
    requires
        masked.valid(),
        pad.valid(),
        masked.elements().len() == pad.elements().len(),
    ensures
        out.valid(),
        out.elements() == unmasked::<G>(masked.elements(), pad.elements()),
{
    let inverse = pad.invert();
    assert(inverse.elements() =~= inverted::<G>(pad.elements()));
    let out = masked.combine(inverse);
    assert(out.elements() =~= unmasked::<G>(masked.elements(), pad.elements()));
    out
}

/// The generator state at the start of `round` under `key`.
pub open spec fn round_start(key: Seq<u8>, round: u32) -> Stream {
    Stream { key, round, word_pos: crate::rng::ROUND_START }
}

/// The pad of `len` elements that the generator of `key` yields in `round`.
pub fn derive_pad<G: DcGroup>(len: usize, key: &[u8; 32], round: u32) -> (pad: G)
    ensures
        pad.valid(),
        pad.elements() == G::pad_elements(len as nat, round_start(key@, round)),
        pad.elements().len() == len,
{
    let mut rng = DiceMixRng::new(key);
    rng.prepare_round(round);
    let mut pad = G::zero(len);
    let ghost blank = pad;
    pad.randomize(&mut rng);
    proof {
        blank.lemma_randomized_is_pad(round_start(key@, round), &pad);
    }
    pad
}

/// Randomizing `n` bytes consumes `n` words.
pub proof fn lemma_words_before_bytes(items: Seq<u8>, n: nat)
    ensures
        words_before(items, n) == n,
    decreases n,
{
    if n > 0 {
        lemma_words_before_bytes(items, (n - 1) as nat);
    }
}

/// Randomizing `n` field elements consumes `4 * n` words.
pub proof fn lemma_words_before_elements(items: Seq<crate::field::Fp>, n: nat)
    ensures
        words_before(items, n) == 4 * n,
    decreases n,
{
    if n > 0 {
        lemma_words_before_elements(items, (n - 1) as nat);
    }
}

} // verus!
