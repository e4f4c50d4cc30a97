//! Byte vectors under bitwise XOR, the group of the main DC-net.

use super::{DcGroup, Group, Randomize, Shape};
use crate::rng::{DiceMixRng, Stream};
use core::ops::{Add, AddAssign, BitXor, BitXorAssign, Neg, Sub, SubAssign};
use vstd::prelude::*;
use vstd::std_specs::ops::{AddSpecImpl, BitXorSpecImpl, NegSpecImpl, SubSpecImpl};

verus! {

/// A vector whose group operation is the element-wise XOR.
#[derive(Clone, Debug, PartialEq, Eq)]
pub struct XorVec<T>(Vec<T>);

impl<T> View for XorVec<T> {
    type V = Seq<T>;

    closed spec fn view(&self) -> Seq<T> {
        self.0@
    }
}

/// The element-wise XOR of two byte sequences of equal length.
pub open spec fn xor_seq(a: Seq<u8>, b: Seq<u8>) -> Seq<u8> {
    Seq::new(a.len(), |i: int| a[i] ^ b[i])
}

/// The all-zero byte sequence of length `n`.
pub open spec fn zero_seq(n: nat) -> Seq<u8> {
    Seq::new(n, |i: int| 0u8)
}

impl<T> XorVec<T> {
    /// Wraps a vector.
    pub fn new(items: Vec<T>) -> (v: XorVec<T>)
        ensures
            v@ == items@,
    {
        XorVec(items)
    }

    /// Unwraps the vector.
    pub fn into_inner(self) -> (items: Vec<T>)
        ensures
            items@ == self@,
    {
        self.0
    }

    /// The number of elements.
    pub fn len(&self) -> (n: usize)
        ensures
            n == self@.len(),
    {
        self.0.len()
    }
}

impl XorVec<u8> {
    /// A vector with the bytes of `bytes`.
    pub fn from_slice(bytes: &[u8]) -> (v: XorVec<u8>)
        ensures
            v@ == bytes@,
    {
        XorVec(copy_bytes(bytes))
    }

    /// The bytes of the vector.
    pub fn as_slice(&self) -> (bytes: &[u8])
        ensures
            bytes@ == self@,
    {
        self.0.as_slice()
    }

    /// Whether every byte is zero.
    pub fn is_zero(&self) -> (r: bool)
        ensures
            r == (self@ == zero_seq(self@.len())),
    {
        let mut i: usize = 0;
        while i < self.0.len()
            invariant
                i <= self.0@.len(),
                forall|j: int| 0 <= j < i ==> self.0@[j] == 0,
            decreases self.0@.len() - i,
        {
            if self.0[i] != 0 {
                assert(self@[i as int] != zero_seq(self@.len())[i as int]);
                return false;
            }
            i += 1;
        }
        assert(self@ =~= zero_seq(self@.len()));
        true
    }
}

impl BitXorSpecImpl for XorVec<u8> {
    open spec fn obeys_bitxor_spec() -> bool {
        false
    }

    open spec fn bitxor_req(self, rhs: XorVec<u8>) -> bool {
        self@.len() == rhs@.len()
    }

    open spec fn bitxor_spec(self, rhs: XorVec<u8>) -> XorVec<u8> {
        arbitrary()
    }
}

impl BitXor for XorVec<u8> {
    type Output = XorVec<u8>;

    #[inline]
    fn bitxor(self, rhs: XorVec<u8>) -> (out: XorVec<u8>)
        ensures
            out@ == xor_seq(self@, rhs@),
    {
        let mut items = self.0;
        let n: usize = items.len();
        let mut i: usize = 0;
        while i < n
            invariant
                i <= n,
                n == self@.len(),
                n == rhs@.len(),
                items@.len() == n,
                forall|j: int| 0 <= j < i ==> items@[j] == self@[j] ^ rhs@[j],
                forall|j: int| i <= j < n ==> items@[j] == self@[j],
            decreases n - i,
        {
            let x: u8 = items[i] ^ rhs.0[i];
            items.set(i, x);
            i += 1;
        }
        assert(items@ =~= xor_seq(self@, rhs@));
        XorVec(items)
    }
}

impl BitXorAssign for XorVec<u8> {
    #[inline]
    fn bitxor_assign(&mut self, rhs: XorVec<u8>)
        requires
            old(self)@.len() == rhs@.len(),
        ensures
            final(self)@ == xor_seq(old(self)@, rhs@),
    {
        let n: usize = self.0.len();
        let mut i: usize = 0;
        while i < n
            invariant
                i <= n,
                n == old(self)@.len(),
                n == rhs@.len(),
                self@.len() == n,
                forall|j: int| 0 <= j < i ==> self@[j] == old(self)@[j] ^ rhs@[j],
                forall|j: int| i <= j < n ==> self@[j] == old(self)@[j],
            decreases n - i,
        {
            let x: u8 = self.0[i] ^ rhs.0[i];
            self.0.set(i, x);
            i += 1;
        }
        assert(self@ =~= xor_seq(old(self)@, rhs@));
    }
}

impl AddSpecImpl for XorVec<u8> {
    open spec fn obeys_add_spec() -> bool {
        false
    }

    open spec fn add_req(self, rhs: XorVec<u8>) -> bool {
        self@.len() == rhs@.len()
    }

    open spec fn add_spec(self, rhs: XorVec<u8>) -> XorVec<u8> {
        arbitrary()
    }
}

impl Add for XorVec<u8> {
    type Output = XorVec<u8>;

    #[inline]
    fn add(self, rhs: XorVec<u8>) -> (out: XorVec<u8>)
        ensures
            out@ == xor_seq(self@, rhs@),
    {
        self.bitxor(rhs)
    }
}

impl AddAssign for XorVec<u8> {
    #[inline]
    fn add_assign(&mut self, rhs: XorVec<u8>)
        requires
            old(self)@.len() == rhs@.len(),
        ensures
            final(self)@ == xor_seq(old(self)@, rhs@),
    {
        self.bitxor_assign(rhs)
    }
}

impl SubSpecImpl for XorVec<u8> {
    open spec fn obeys_sub_spec() -> bool {
        false
    }

    open spec fn sub_req(self, rhs: XorVec<u8>) -> bool {
        self@.len() == rhs@.len()
    }

    open spec fn sub_spec(self, rhs: XorVec<u8>) -> XorVec<u8> {
        arbitrary()
    }
}

impl Sub for XorVec<u8> {
    type Output = XorVec<u8>;

    #[inline]
    fn sub(self, rhs: XorVec<u8>) -> (out: XorVec<u8>)
        ensures
            out@ == xor_seq(self@, rhs@),
    {
        self.bitxor(rhs)
    }
}

impl SubAssign for XorVec<u8> {
    #[inline]
    fn sub_assign(&mut self, rhs: XorVec<u8>)
        requires
            old(self)@.len() == rhs@.len(),
        ensures
            final(self)@ == xor_seq(old(self)@, rhs@),
    {
        self.bitxor_assign(rhs)
    }
}

impl<T> NegSpecImpl for XorVec<T> {
    open spec fn obeys_neg_spec() -> bool {
        true
    }

    open spec fn neg_req(self) -> bool {
        true
    }

    open spec fn neg_spec(self) -> XorVec<T> {
        self
    }
}

impl<T> Neg for XorVec<T> {
    type Output = XorVec<T>;

    /// Every element is its own inverse.
    #[inline]
    fn neg(self) -> (out: XorVec<T>)
        ensures
            out == self,
    {
        self
    }
}

impl<T: Shape> Shape for XorVec<T> {
    open spec fn words(&self) -> nat {
        super::words_before(self@, self@.len())
    }

    open spec fn randomized(&self, stream: Stream, out: &XorVec<T>) -> bool {
        &&& out@.len() == self@.len()
        &&& forall|i: int|
            0 <= i < self@.len() ==> (#[trigger] self@[i]).randomized(
                stream.skip(super::words_before(self@, i as nat)),
                &out@[i],
            )
    }
}

impl<T: Randomize> Randomize for XorVec<T> {
    fn randomize(&mut self, rng: &mut DiceMixRng) {
        self.0.randomize(rng);
    }
}

impl Group for XorVec<u8> {
    type Element = u8;

    open spec fn elements(&self) -> Seq<u8> {
        self@
    }

    open spec fn valid(&self) -> bool {
        true
    }

    open spec fn element_combine(a: u8, b: u8) -> u8 {
        a ^ b
    }

    open spec fn element_invert(a: u8) -> u8 {
        a
    }

    open spec fn element_zero() -> u8 {
        0
    }

    /// Byte `i` is the low byte of word `i` of the stream.
    open spec fn pad_elements(len: nat, stream: Stream) -> Seq<u8> {
        Seq::new(
            len,
            |i: int|
                (vstd::bytes::spec_u32_from_le_bytes(stream.skip(i as nat).bytes(4)) % 256) as u8,
        )
    }
}

impl DcGroup for XorVec<u8> {
    fn zero(len: usize) -> (out: XorVec<u8>) {
        let mut items: Vec<u8> = Vec::new();
        let mut i: usize = 0;
        while i < len
            invariant
                i <= len,
                items@.len() == i,
                forall|j: int| 0 <= j < i ==> items@[j] == 0,
            decreases len - i,
        {
            items.push(0);
            i += 1;
        }
        XorVec(items)
    }

    fn combine(self, rhs: XorVec<u8>) -> (out: XorVec<u8>) {
        self.bitxor(rhs)
    }

    fn invert(self) -> (out: XorVec<u8>) {
        self
    }

    fn duplicate(&self) -> (out: XorVec<u8>) {
        XorVec(crate::dc::xor::copy_bytes(self.0.as_slice()))
    }

    proof fn lemma_randomized_is_pad(&self, stream: Stream, out: &XorVec<u8>) {
        let pad = Self::pad_elements(self@.len(), stream);
        assert forall|i: int| 0 <= i < self@.len() implies out@[i] == pad[i] by {
            super::lemma_words_before_bytes(self@, i as nat);
            assert(self@[i].randomized(stream.skip(super::words_before(self@, i as nat)), &out@[i]));
        }
        assert(out@ =~= pad);
    }
}

/// A fresh vector with the bytes of `bytes`.
pub fn copy_bytes(bytes: &[u8]) -> (out: Vec<u8>)
    ensures
        out@ == bytes@,
{
    let mut out: Vec<u8> = Vec::new();
    let mut i: usize = 0;
    while i < bytes.len()
        invariant
            i <= bytes@.len(),
            out@ == bytes@.subrange(0, i as int),
        decreases bytes@.len() - i,
    {
        out.push(bytes[i]);
        assert(out@ =~= bytes@.subrange(0, i + 1));
        i += 1;
    }
    assert(out@ =~= bytes@);
    out
}

/// XOR is commutative.
pub proof fn lemma_xor_commutative(v1: Seq<u8>, v2: Seq<u8>)
    requires
        v1.len() == v2.len(),
    ensures
        xor_seq(v1, v2) == xor_seq(v2, v1),
{
    assert forall|i: int| 0 <= i < v1.len() implies v1[i] ^ v2[i] == v2[i] ^ v1[i] by {
        let (a, b) = (v1[i], v2[i]);
        assert(a ^ b == b ^ a) by (bit_vector);
    }
    assert(xor_seq(v1, v2) =~= xor_seq(v2, v1));
}

/// XOR is associative.
pub proof fn lemma_xor_associative(v1: Seq<u8>, v2: Seq<u8>, v3: Seq<u8>)
    requires
        v1.len() == v2.len(),
        v2.len() == v3.len(),
    ensures
        xor_seq(xor_seq(v1, v2), v3) == xor_seq(v1, xor_seq(v2, v3)),
{
    assert forall|i: int| 0 <= i < v1.len() implies (v1[i] ^ v2[i]) ^ v3[i] == v1[i] ^ (v2[i]
        ^ v3[i]) by {
        let (a, b, c) = (v1[i], v2[i], v3[i]);
        assert((a ^ b) ^ c == a ^ (b ^ c)) by (bit_vector);
    }
    assert(xor_seq(xor_seq(v1, v2), v3) =~= xor_seq(v1, xor_seq(v2, v3)));
}

/// Every vector combined with itself gives the zero vector.
pub proof fn lemma_xor_self_is_zero(v: Seq<u8>)
    ensures
        xor_seq(v, v) == zero_seq(v.len()),
{
    assert forall|i: int| 0 <= i < v.len() implies v[i] ^ v[i] == 0u8 by {
        let a = v[i];
        assert(a ^ a == 0u8) by (bit_vector);
    }
    assert(xor_seq(v, v) =~= zero_seq(v.len()));
}

/// The zero vector is neutral.
pub proof fn lemma_xor_zero_neutral(v: Seq<u8>)
    ensures
        xor_seq(v, zero_seq(v.len())) == v,
{
    assert forall|i: int| 0 <= i < v.len() implies v[i] ^ 0u8 == v[i] by {
        let a = v[i];
        assert(a ^ 0u8 == a) by (bit_vector);
    }
    assert(xor_seq(v, zero_seq(v.len())) =~= v);
}

/// Every vector is its own inverse: inverting changes nothing, and so
/// taking a pad off is the same as putting it on.
pub proof fn lemma_xor_invert_is_identity(v: Seq<u8>)
    ensures
        super::inverted::<XorVec<u8>>(v) == v,
{
    assert(super::inverted::<XorVec<u8>>(v) =~= v);
}

/// Masking and unmasking with the same pad gives the vector back.
pub proof fn lemma_xor_unmask(v: Seq<u8>, pad: Seq<u8>)
    requires
        v.len() == pad.len(),
    ensures
        xor_seq(xor_seq(v, pad), pad) == v,
{
    lemma_xor_associative(v, pad, pad);
    lemma_xor_self_is_zero(pad);
    lemma_xor_zero_neutral(v);
}

/// A vector that was masked with a pad is itself again once the pad is
/// taken off.
pub proof fn lemma_unmask_masked(vector: Seq<u8>, pad: Seq<u8>)
    requires
        vector.len() == pad.len(),
    ensures
        super::unmasked::<XorVec<u8>>(super::combined::<XorVec<u8>>(vector, pad), pad) == vector,
{
    lemma_xor_unmask(vector, pad);
    lemma_xor_invert_is_identity(pad);
    assert(super::combined::<XorVec<u8>>(vector, pad) =~= xor_seq(vector, pad));
    assert(super::unmasked::<XorVec<u8>>(xor_seq(vector, pad), pad) =~= xor_seq(
        xor_seq(vector, pad),
        pad,
    ));
}

} // verus!
