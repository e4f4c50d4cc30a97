//! Arithmetic in the prime field of order `2^127 - 1`.
//!
//! Elements are kept in a redundant representation: any integer in `[0, P]`
//! is allowed, so zero is represented by both `0` and `P`.  All operations
//! reduce by folding the bits above position 127 back onto the low bits,
//! never by division.

use core::ops::{Add, AddAssign, Mul, MulAssign, Neg, Sub, SubAssign};
use vstd::arithmetic::div_mod::*;
use vstd::arithmetic::mul::*;
use vstd::prelude::*;

verus! {

/// The field size, the Mersenne prime `2^127 - 1`.
pub const P: u128 = 0x7fff_ffff_ffff_ffff_ffff_ffff_ffff_ffff;

/// `2^127`, the weight of the bits that a reduction pass folds back.
pub open spec fn radix() -> nat {
    0x8000_0000_0000_0000_0000_0000_0000_0000
}

/// `2^64`, the weight of the high limb of a 128-bit word.
pub open spec fn limb() -> nat {
    0x1_0000_0000_0000_0000
}

/// One fold-back pass: the bits from position 127 upwards are added onto
/// the low 127 bits.
pub open spec fn fold(x: nat) -> nat {
    x % radix() + x / radix()
}

/// The canonical residue of `x` modulo `P`.
pub open spec fn residue(x: int) -> nat {
    (x % (P as int)) as nat
}

/// A fold-back pass keeps the residue modulo `P`.
pub proof fn lemma_fold_congruent(x: nat)
    ensures
        residue(fold(x) as int) == residue(x as int),
{
    let q = (x / radix()) as int;
    let r = (x % radix()) as int;
    lemma_fundamental_div_mod(x as int, radix() as int);
    assert(x as int == (P as int) * q + (q + r)) by (nonlinear_arith)
        requires
            x as int == 0x8000_0000_0000_0000_0000_0000_0000_0000 * q + r,
            P as int == 0x8000_0000_0000_0000_0000_0000_0000_0000 - 1,
    ;
    lemma_mod_multiples_vanish(q, q + r, P as int);
}

/// A fold-back pass brings anything up to `2^128 - 2` into `[0, P]`.
pub proof fn lemma_fold_bound(x: nat)
    requires
        x <= 2 * P,
    ensures
        fold(x) <= P,
        fold(x) == if x <= P { x } else { (x - P) as nat },
{
}

/// Splits a 128-bit word into its high and low 64-bit limbs.
pub fn as_limbs(x: u128) -> (r: (u64, u64))
    ensures
        r.0 == x / 0x1_0000_0000_0000_0000,
        r.1 == x % 0x1_0000_0000_0000_0000,
        x == r.0 * limb() + r.1,
{
    let h: u128 = x >> 64;
    let l: u128 = x & 0xffff_ffff_ffff_ffff;
    assert(h == x / 0x1_0000_0000_0000_0000 && h <= 0xffff_ffff_ffff_ffff) by (bit_vector)
        requires
            h == x >> 64,
    ;
    assert(l == x % 0x1_0000_0000_0000_0000 && l <= 0xffff_ffff_ffff_ffff) by (bit_vector)
        requires
            l == x & 0xffff_ffff_ffff_ffff,
    ;
    (h as u64, l as u64)
}

/// Values that stand for an integer.
pub trait Magnitude: Sized {
    /// The integer that the value stands for.
    spec fn magnitude(self) -> nat;

    /// The values whose folded form fits a 128-bit word.
    spec fn foldable(self) -> bool;
}

/// Folding a value back onto its low 127 bits.
pub trait Reduce: Magnitude {
    /// One reduction pass.
    fn reduce_once(self) -> (r: u128)
        requires
            self.foldable(),
        ensures
            r == fold(self.magnitude()),
    ;

    /// One reduction pass on a value that a single pass brings into
    /// `[0, P]`.
    fn reduce_once_assert(self) -> (r: u128)
        requires
            self.foldable(),
            self.magnitude() <= 2 * P,
        ensures
            r == fold(self.magnitude()),
            r <= P,
    ;
}

impl Magnitude for u128 {
    open spec fn magnitude(self) -> nat {
        self as nat
    }

    open spec fn foldable(self) -> bool {
        true
    }
}

impl Reduce for u128 {
    fn reduce_once(self) -> (r: u128) {
        let low: u128 = self & P;
        let high: u128 = self >> 127;
        assert(low == self % 0x8000_0000_0000_0000_0000_0000_0000_0000 && high == self
            / 0x8000_0000_0000_0000_0000_0000_0000_0000 && high <= 1 && low
            <= 0x7fff_ffff_ffff_ffff_ffff_ffff_ffff_ffff) by (bit_vector)
            requires
                low == self & 0x7fff_ffff_ffff_ffff_ffff_ffff_ffff_ffff,
                high == self >> 127,
        ;
        assert(self.magnitude() == self as nat);
        assert(fold(self as nat) == (self as nat) % radix() + (self as nat) / radix());
        assert(low == (self as nat) % radix());
        assert(high == (self as nat) / radix());
        low + high
    }

    fn reduce_once_assert(self) -> (r: u128) {
        let red: u128 = self.reduce_once();
        proof {
            lemma_fold_bound(self.magnitude());
        }
        red
    }
}

/// A 256-bit value as its high and low 128-bit words.
impl Magnitude for (u128, u128) {
    open spec fn magnitude(self) -> nat {
        self.0 as nat * 0x1_0000_0000_0000_0000_0000_0000_0000_0000 + self.1 as nat
    }

    open spec fn foldable(self) -> bool {
        self.0 < 0x4000_0000_0000_0000_0000_0000_0000_0000
    }
}

impl Reduce for (u128, u128) {
    fn reduce_once(self) -> (r: u128) {
        let (h, l) = self;
        let top: u128 = l >> 127;
        let low: u128 = l & P;
        let doubled: u128 = h << 1;
        // shift = (h, l) >> 127
        let shift: u128 = doubled | top;
        assert(low == l % 0x8000_0000_0000_0000_0000_0000_0000_0000 && top == l
            / 0x8000_0000_0000_0000_0000_0000_0000_0000 && top <= 1 && low
            <= 0x7fff_ffff_ffff_ffff_ffff_ffff_ffff_ffff) by (bit_vector)
            requires
                low == l & 0x7fff_ffff_ffff_ffff_ffff_ffff_ffff_ffff,
                top == l >> 127,
        ;
        assert(shift == 2 * h + top && shift <= 0x7fff_ffff_ffff_ffff_ffff_ffff_ffff_ffff)
            by (bit_vector)
            requires
                h < 0x4000_0000_0000_0000_0000_0000_0000_0000,
                top <= 1,
                doubled == h << 1,
                shift == doubled | top,
        ;
        proof {
            let m = self.magnitude() as int;
            let hi = h as int;
            let lo = l as int;
            let t = top as int;
            let w = low as int;
            lemma_fundamental_div_mod(lo, radix() as int);
            assert(m == 0x8000_0000_0000_0000_0000_0000_0000_0000 * (2 * hi + t) + w)
                by (nonlinear_arith)
                requires
                    m == hi * 0x1_0000_0000_0000_0000_0000_0000_0000_0000 + lo,
                    lo == 0x8000_0000_0000_0000_0000_0000_0000_0000 * t + w,
            ;
            lemma_fundamental_div_mod_converse(m, radix() as int, 2 * hi + t, w);
        }
        low + shift
    }

    fn reduce_once_assert(self) -> (r: u128) {
        let red: u128 = self.reduce_once();
        proof {
            lemma_fold_bound(self.magnitude());
        }
        red
    }
}

/// A finite field element.
///
/// It is consistent iff its representation lies in `[0, P]`.
#[derive(Clone, Copy, Debug)]
pub struct Fp(u128);

impl Fp {
    /// The integer that represents the element, a member of `[0, P]` for
    /// every consistent element.
    pub closed spec fn repr(self) -> nat {
        self.0 as nat
    }

    /// The element that a 128-bit integer represents.
    pub closed spec fn with_repr(x: nat) -> Fp {
        Fp(x as u128)
    }

    /// Consistency: the representation lies in `[0, P]`.
    pub open spec fn wf(self) -> bool {
        self.repr() <= P
    }

    /// The canonical value in `[0, P)`; both representations of zero give 0.
    pub open spec fn value(self) -> nat {
        residue(self.repr() as int)
    }

    /// `with_repr` and `repr` are inverse to each other on 128-bit integers.
    pub proof fn lemma_with_repr(x: nat)
        requires
            x <= u128::MAX,
        ensures
            Fp::with_repr(x).repr() == x,
    {
    }

    /// An element is determined by its representation.
    pub proof fn lemma_repr_injective(a: Fp, b: Fp)
        requires
            a.repr() == b.repr(),
        ensures
            a == b,
    {
    }

    /// The element with the value of `x` modulo `P`, for any integer of
    /// the backing width: two fold-back passes bring `x` into `[0, P]`.
    #[inline]
    pub fn new(x: u128) -> (r: Self)
        ensures
            r.wf(),
            r.repr() == fold(fold(x as nat)),
            r.value() == residue(x as int),
    {
        let once: u128 = x.reduce_once();
        proof {
            assert(x.magnitude() == x as nat);
            assert(once == fold(x as nat));
            lemma_fold_bound(once as nat);
            lemma_fold_congruent(x as nat);
            lemma_fold_congruent(once as nat);
        }
        let twice: u128 = once.reduce_once();
        proof {
            assert(once.magnitude() == once as nat);
        }
        Fp(twice)
    }

    /// The element represented by `x`.  `x == P` is explicitly allowed and
    /// gives the second representation of zero.
    #[inline]
    pub fn from_u127(x: u128) -> (r: Self)
        requires
            x <= P,
        ensures
            r.wf(),
            r.repr() == x,
            r == Fp::with_repr(x as nat),
    {
        Fp(x)
    }

    /// The element represented by the low 127 bits of `x`.
    #[inline]
    pub fn from_u128_discard_msb(x: u128) -> (r: Self)
        ensures
            r.wf(),
            r.repr() == x % 0x8000_0000_0000_0000_0000_0000_0000_0000,
    {
        let low: u128 = x & P;
        assert(low == x % 0x8000_0000_0000_0000_0000_0000_0000_0000 && low
            <= 0x7fff_ffff_ffff_ffff_ffff_ffff_ffff_ffff) by (bit_vector)
            requires
                low == x & 0x7fff_ffff_ffff_ffff_ffff_ffff_ffff_ffff,
        ;
        Self::from_u127(low)
    }

    /// The canonical integer of a consistent element, a member of `[0, P)`.
    /// What an inconsistent element gives is its representation folded
    /// once, with `P` collapsed to zero.
    #[inline]
    pub fn to_u128(self) -> (v: u128)
        ensures
            v == self.canonical(),
            self.wf() ==> v == self.value() && v < P,
    {
        let red: u128 = self.0.reduce_once();
        let v: u128 = if red == P {
            0
        } else {
            red
        };
        proof {
            assert(self.0.magnitude() == self.repr());
            assert(red == fold(self.repr()));
            assert(v == self.canonical());
            if self.wf() {
                self.lemma_canonical_is_value();
            }
        }
        v
    }

    /// The sum of two elements.
    #[inline]
    pub fn plus(self, rhs: Fp) -> (r: Fp)
        requires
            self.wf(),
            rhs.wf(),
        ensures
            r.wf(),
            r == self.sum(rhs),
    {
        let wide: u128 = self.0 + rhs.0;
        proof {
            lemma_fold_bound(self.repr() + rhs.repr());
            assert(wide.magnitude() == self.repr() + rhs.repr());
        }
        Fp(wide.reduce_once_assert())
    }

    /// The additive inverse.
    #[inline]
    pub fn negated(self) -> (r: Fp)
        requires
            self.wf(),
        ensures
            r.wf(),
            r == self.negation(),
    {
        Fp(P - self.0)
    }

    /// The difference of two elements.
    #[inline]
    pub fn minus(self, rhs: Fp) -> (r: Fp)
        requires
            self.wf(),
            rhs.wf(),
        ensures
            r.wf(),
            r == self.difference(rhs),
    {
        self.plus(rhs.negated())
    }

    /// The product of two elements.
    #[inline]
    pub fn times(self, rhs: Fp) -> (r: Fp)
        requires
            self.wf(),
            rhs.wf(),
        ensures
            r.wf(),
            r == self.product(rhs),
    {
        let (sh, sl) = as_limbs(self.0);
        let (oh, ol) = as_limbs(rhs.0);
        assert(sh < 0x8000_0000_0000_0000 && oh < 0x8000_0000_0000_0000);
        assert(sh * ol <= 0x7fff_ffff_ffff_ffff * 0xffff_ffff_ffff_ffff && oh * sl
            <= 0x7fff_ffff_ffff_ffff * 0xffff_ffff_ffff_ffff && sl * ol <= 0xffff_ffff_ffff_ffff
            * 0xffff_ffff_ffff_ffff && sh * oh <= 0x7fff_ffff_ffff_ffff * 0x7fff_ffff_ffff_ffff)
            by (nonlinear_arith)
            requires
                sh <= 0x7fff_ffff_ffff_ffff,
                oh <= 0x7fff_ffff_ffff_ffff,
                sl <= 0xffff_ffff_ffff_ffff,
                ol <= 0xffff_ffff_ffff_ffff,
        ;

        // (64 bits * 63 bits) + (64 bits * 63 bits) = 128 bits
        let m: u128 = (sh as u128 * ol as u128) + (oh as u128 * sl as u128);
        let (mh, ml) = as_limbs(m);

        // (64 bits * 64 bits) + 128 bits = 129 bits
        let low: u128 = sl as u128 * ol as u128;
        let mid: u128 = (ml as u128) << 64;
        assert(mid == ml * 0x1_0000_0000_0000_0000) by (bit_vector)
            requires
                mid == (ml as u128) << 64,
        ;
        let rl: u128 = low.wrapping_add(mid);
        let carry: u128 = if rl < low {
            1
        } else {
            0
        };

        // (63 bits * 63 bits) + 64 bits + 1 bit = 127 bits
        let rh: u128 = (sh as u128 * oh as u128) + (mh as u128) + carry;

        proof {
            let wide = self.repr() * rhs.repr();
            lemma_limb_product(
                sh as int,
                sl as int,
                oh as int,
                ol as int,
                mh as int,
                ml as int,
                carry as int,
                rl as int,
            );
            assert((rh, rl).magnitude() == wide);
            assert(wide <= 0x7fff_ffff_ffff_ffff_ffff_ffff_ffff_ffff
                * 0x7fff_ffff_ffff_ffff_ffff_ffff_ffff_ffff) by (nonlinear_arith)
                requires
                    wide == self.repr() * rhs.repr(),
                    self.repr() <= 0x7fff_ffff_ffff_ffff_ffff_ffff_ffff_ffff,
                    rhs.repr() <= 0x7fff_ffff_ffff_ffff_ffff_ffff_ffff_ffff,
            ;
            assert(fold(wide) <= 2 * P);
        }
        let once: u128 = (rh, rl).reduce_once();
        proof {
            lemma_fold_bound(once as nat);
        }
        Fp(once.reduce_once_assert())
    }

    /// Whether two elements are equal: whether their canonical integers
    /// are, whatever their representations.
    #[inline]
    pub fn equals(&self, other: &Fp) -> (r: bool)
        ensures
            r == (self.canonical() == other.canonical()),
            self.wf() && other.wf() ==> r == self.same(*other),
    {
        proof {
            if self.wf() && other.wf() {
                self.lemma_canonical_is_value();
                other.lemma_canonical_is_value();
            }
        }
        self.to_u128() == other.to_u128()
    }

    /// Whether the element is consistent.
    #[inline]
    pub fn is_consistent(&self) -> (r: bool)
        ensures
            r == self.wf(),
    {
        self.0 <= P
    }

    /// The field size.
    #[inline]
    pub fn prime() -> (p: u128)
        ensures
            p == P,
    {
        P
    }

    /// The integer that conversion yields: the representation folded once,
    /// with `P` collapsed to zero.
    pub open spec fn canonical(self) -> nat {
        let folded = fold(self.repr());
        if folded == P {
            0
        } else {
            folded
        }
    }

    /// On consistent elements conversion yields the canonical value.
    pub proof fn lemma_canonical_is_value(self)
        requires
            self.wf(),
        ensures
            self.canonical() == self.value(),
            self.value() < P,
    {
        lemma_fold_bound(self.repr());
        if self.repr() == P {
            lemma_mod_self_0(P as int);
        } else {
            lemma_small_mod(self.repr(), P as nat);
        }
    }

    /// The sum of two elements, as the fold-back reduction computes it.
    pub open spec fn sum(self, rhs: Fp) -> Fp {
        Fp::with_repr(fold(self.repr() + rhs.repr()))
    }

    /// The additive inverse, `P - x` on representations.
    pub open spec fn negation(self) -> Fp {
        Fp::with_repr((P - self.repr()) as nat)
    }

    /// The difference, which is the sum with the additive inverse.
    pub open spec fn difference(self, rhs: Fp) -> Fp {
        self.sum(rhs.negation())
    }

    /// The product of two elements: the double-width product of the
    /// representations after two fold-back passes.
    pub open spec fn product(self, rhs: Fp) -> Fp {
        Fp::with_repr(fold(fold(self.repr() * rhs.repr())))
    }

    /// Equality of field elements: equality of canonical values.
    pub open spec fn same(self, rhs: Fp) -> bool {
        self.value() == rhs.value()
    }
}

impl vstd::std_specs::convert::FromSpecImpl<Fp> for u128 {
    open spec fn obeys_from_spec() -> bool {
        true
    }

    open spec fn from_spec(x: Fp) -> u128 {
        x.canonical() as u128
    }
}

impl From<Fp> for u128 {
    /// The canonical integer of a consistent element, a member of `[0, P)`.
    #[inline]
    fn from(x: Fp) -> (v: u128)
        ensures
            v == x.canonical(),
            x.wf() ==> v == x.value() && v < P,
    {
        x.to_u128()
    }
}

impl vstd::std_specs::convert::FromSpecImpl<u128> for Fp {
    open spec fn obeys_from_spec() -> bool {
        true
    }

    open spec fn from_spec(x: u128) -> Fp {
        Fp::with_repr(fold(fold(x as nat)))
    }
}

impl From<u128> for Fp {
    /// The element with the value of `x` modulo `P`.
    #[inline]
    fn from(x: u128) -> (r: Fp)
        ensures
            r.wf(),
            r.repr() == fold(fold(x as nat)),
            r.value() == residue(x as int),
    {
        let r = Fp::new(x);
        proof {
            Fp::lemma_with_repr(r.repr());
            Fp::lemma_repr_injective(r, Fp::with_repr(fold(fold(x as nat))));
        }
        r
    }
}

impl vstd::std_specs::ops::NegSpecImpl for Fp {
    open spec fn obeys_neg_spec() -> bool {
        true
    }

    open spec fn neg_req(self) -> bool {
        self.wf()
    }

    open spec fn neg_spec(self) -> Fp {
        self.negation()
    }
}

impl Neg for Fp {
    type Output = Fp;

    #[inline]
    fn neg(self) -> (r: Fp)
        ensures
            r.wf(),
            r == self.negation(),
    {
        self.negated()
    }
}

impl vstd::std_specs::ops::AddSpecImpl for Fp {
    open spec fn obeys_add_spec() -> bool {
        true
    }

    open spec fn add_req(self, rhs: Fp) -> bool {
        self.wf() && rhs.wf()
    }

    open spec fn add_spec(self, rhs: Fp) -> Fp {
        self.sum(rhs)
    }
}

impl Add for Fp {
    type Output = Fp;

    #[inline]
    fn add(self, rhs: Fp) -> (r: Fp)
        ensures
            r.wf(),
            r == self.sum(rhs),
    {
        self.plus(rhs)
    }
}

impl vstd::std_specs::ops::SubSpecImpl for Fp {
    open spec fn obeys_sub_spec() -> bool {
        true
    }

    open spec fn sub_req(self, rhs: Fp) -> bool {
        self.wf() && rhs.wf()
    }

    open spec fn sub_spec(self, rhs: Fp) -> Fp {
        self.difference(rhs)
    }
}

impl Sub for Fp {
    type Output = Fp;

    #[inline]
    fn sub(self, rhs: Fp) -> (r: Fp)
        ensures
            r.wf(),
            r == self.difference(rhs),
    {
        self.minus(rhs)
    }
}

/// The 256-bit product of two 128-bit words, by 64-bit limbs.
proof fn lemma_limb_product(sh: int, sl: int, oh: int, ol: int, mh: int, ml: int, carry: int, rl: int)
    by (nonlinear_arith)
    requires
        sh * ol + oh * sl == mh * 0x1_0000_0000_0000_0000 + ml,
        sl * ol + ml * 0x1_0000_0000_0000_0000 == carry
            * 0x1_0000_0000_0000_0000_0000_0000_0000_0000 + rl,
    ensures
        (sh * 0x1_0000_0000_0000_0000 + sl) * (oh * 0x1_0000_0000_0000_0000 + ol) == (sh * oh + mh
            + carry) * 0x1_0000_0000_0000_0000_0000_0000_0000_0000 + rl,
{
}

impl vstd::std_specs::ops::MulSpecImpl for Fp {
    open spec fn obeys_mul_spec() -> bool {
        true
    }

    open spec fn mul_req(self, rhs: Fp) -> bool {
        self.wf() && rhs.wf()
    }

    open spec fn mul_spec(self, rhs: Fp) -> Fp {
        self.product(rhs)
    }
}

impl Mul for Fp {
    type Output = Fp;

    #[inline]
    fn mul(self, rhs: Fp) -> (r: Fp)
        ensures
            r.wf(),
            r == self.product(rhs),
    {
        self.times(rhs)
    }
}

impl vstd::std_specs::cmp::PartialEqSpecImpl for Fp {
    open spec fn obeys_eq_spec() -> bool {
        true
    }

    open spec fn eq_spec(&self, other: &Fp) -> bool {
        self.canonical() == other.canonical()
    }
}

impl PartialEq for Fp {
    /// Elements are equal when their canonical integers are, whatever
    /// their representations.
    #[inline]
    fn eq(&self, other: &Fp) -> (r: bool)
        ensures
            self.wf() && other.wf() ==> r == self.same(*other),
    {
        self.equals(other)
    }
}

impl Eq for Fp {

}

impl AddAssign for Fp {
    #[inline]
    fn add_assign(&mut self, rhs: Fp)
        requires
            old(self).wf(),
            rhs.wf(),
        ensures
            final(self).wf(),
            *final(self) == old(self).sum(rhs),
    {
        *self = self.plus(rhs)
    }
}

impl SubAssign for Fp {
    #[inline]
    fn sub_assign(&mut self, rhs: Fp)
        requires
            old(self).wf(),
            rhs.wf(),
        ensures
            final(self).wf(),
            *final(self) == old(self).difference(rhs),
    {
        *self = self.minus(rhs)
    }
}

impl MulAssign for Fp {
    #[inline]
    fn mul_assign(&mut self, rhs: Fp)
        requires
            old(self).wf(),
            rhs.wf(),
        ensures
            final(self).wf(),
            *final(self) == old(self).product(rhs),
    {
        *self = self.times(rhs)
    }
}

/// The sum of consistent elements is consistent, and its value is the sum
/// of the values modulo `P`.
pub proof fn lemma_sum_value(a: Fp, b: Fp)
    requires
        a.wf(),
        b.wf(),
    ensures
        a.sum(b).wf(),
        a.sum(b).value() == residue((a.value() + b.value()) as int),
{
    let x = a.repr() + b.repr();
    lemma_fold_bound(x);
    Fp::lemma_with_repr(fold(x));
    lemma_fold_congruent(x);
    lemma_add_mod_noop(a.repr() as int, b.repr() as int, P as int);
}

/// The additive inverse of a consistent element is consistent, and its
/// value is the negated value modulo `P`.
pub proof fn lemma_negation_value(a: Fp)
    requires
        a.wf(),
    ensures
        a.negation().wf(),
        a.negation().value() == residue(-(a.value() as int)),
{
    Fp::lemma_with_repr((P - a.repr()) as nat);
    lemma_mod_self_0(P as int);
    lemma_sub_mod_noop(P as int, a.repr() as int, P as int);
}

/// The product of consistent elements is consistent, and its value is the
/// product of the values modulo `P`.
pub proof fn lemma_product_value(a: Fp, b: Fp)
    requires
        a.wf(),
        b.wf(),
    ensures
        a.product(b).wf(),
        a.product(b).value() == residue((a.value() * b.value()) as int),
{
    let wide = a.repr() * b.repr();
    assert(wide <= 0x7fff_ffff_ffff_ffff_ffff_ffff_ffff_ffff
        * 0x7fff_ffff_ffff_ffff_ffff_ffff_ffff_ffff) by (nonlinear_arith)
        requires
            wide == a.repr() * b.repr(),
            a.repr() <= 0x7fff_ffff_ffff_ffff_ffff_ffff_ffff_ffff,
            b.repr() <= 0x7fff_ffff_ffff_ffff_ffff_ffff_ffff_ffff,
    ;
    assert(fold(wide) <= 2 * P);
    lemma_fold_bound(fold(wide));
    Fp::lemma_with_repr(fold(fold(wide)));
    lemma_fold_congruent(wide);
    lemma_fold_congruent(fold(wide));
    lemma_mul_mod_noop_general(a.repr() as int, b.repr() as int, P as int);
}

/// Addition is commutative, on representations and so on values.
pub proof fn lemma_add_commutative(a: Fp, b: Fp)
    requires
        a.wf(),
        b.wf(),
    ensures
        a.sum(b) == b.sum(a),
        a.sum(b).same(b.sum(a)),
{
}

/// Addition is associative.
pub proof fn lemma_add_associative(a: Fp, b: Fp, c: Fp)
    requires
        a.wf(),
        b.wf(),
        c.wf(),
    ensures
        a.sum(b).sum(c).same(a.sum(b.sum(c))),
{
    lemma_sum_value(a, b);
    lemma_sum_value(b, c);
    lemma_sum_value(a.sum(b), c);
    lemma_sum_value(a, b.sum(c));
    let (x, y, z) = (a.value() as int, b.value() as int, c.value() as int);
    lemma_add_mod_noop(x + y, z, P as int);
    lemma_add_mod_noop(x, y + z, P as int);
    lemma_mod_twice(z, P as int);
    lemma_mod_twice(x, P as int);
    c.lemma_canonical_is_value();
    a.lemma_canonical_is_value();
    lemma_small_mod(z as nat, P as nat);
    lemma_small_mod(x as nat, P as nat);
}

/// An element and its additive inverse sum to zero.
pub proof fn lemma_add_inverse(a: Fp)
    requires
        a.wf(),
    ensures
        a.sum(a.negation()).value() == 0,
{
    Fp::lemma_with_repr((P - a.repr()) as nat);
    lemma_fold_bound(P as nat);
    Fp::lemma_with_repr(P as nat);
    lemma_mod_self_0(P as int);
}

/// Multiplication distributes over addition.
pub proof fn lemma_mul_distributive(a: Fp, b: Fp, c: Fp)
    requires
        a.wf(),
        b.wf(),
        c.wf(),
    ensures
        a.product(b.sum(c)).same(a.product(b).sum(a.product(c))),
{
    lemma_sum_value(b, c);
    lemma_product_value(a, b.sum(c));
    lemma_product_value(a, b);
    lemma_product_value(a, c);
    lemma_sum_value(a.product(b), a.product(c));
    let (x, y, z) = (a.value() as int, b.value() as int, c.value() as int);
    lemma_mul_mod_noop_right(x, y + z, P as int);
    lemma_mul_is_distributive_add(x, y, z);
    lemma_add_mod_noop(x * y, x * z, P as int);
}

/// Every canonical integer survives the way into the field and back.
pub proof fn lemma_canonical_round_trip(v: nat)
    requires
        v < P,
    ensures
        Fp::with_repr(v).wf(),
        Fp::with_repr(v).canonical() == v,
        Fp::with_repr(v).value() == v,
{
    Fp::lemma_with_repr(v);
    Fp::with_repr(v).lemma_canonical_is_value();
    lemma_small_mod(v, P as nat);
}

/// Adding an element and then its additive inverse changes nothing.
pub proof fn lemma_add_then_subtract(a: Fp, b: Fp)
    requires
        a.wf(),
        b.wf(),
    ensures
        a.sum(b).sum(b.negation()).wf(),
        a.sum(b).sum(b.negation()).same(a),
{
    lemma_negation_value(b);
    lemma_add_associative(a, b, b.negation());
    lemma_add_inverse(b);
    lemma_sum_value(a, b);
    lemma_sum_value(a.sum(b), b.negation());
    lemma_sum_value(b, b.negation());
    lemma_sum_value(a, b.sum(b.negation()));
    a.lemma_canonical_is_value();
    lemma_small_mod(a.value(), P as nat);
}

} // verus!
