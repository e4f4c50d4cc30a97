//! Vectors of field elements under addition, the group of the exponential
//! DC-net.

use super::{DcGroup, Group, Randomize, Shape};
use crate::field::Fp;
use crate::rng::{DiceMixRng, Stream};
use vstd::prelude::*;

verus! {

impl Shape for Fp {
    open spec fn words(&self) -> nat {
        4
    }

    /// A field element is the low 127 bits of the next four words.
    open spec fn randomized(&self, stream: Stream, out: &Fp) -> bool {
        out.repr() == vstd::bytes::spec_u128_from_le_bytes(stream.bytes(16))
            % 0x8000_0000_0000_0000_0000_0000_0000_0000
    }
}

impl Randomize for Fp {
    fn randomize(&mut self, rng: &mut DiceMixRng) {
        *self = Fp::from_u128_discard_msb(rng.next_u128());
    }
}

/// A vector of field elements.
#[derive(Clone, Debug, PartialEq, Eq)]
pub struct FpVec(Vec<Fp>);

impl View for FpVec {
    type V = Seq<Fp>;

    closed spec fn view(&self) -> Seq<Fp> {
        self.0@
    }
}

/// Every element of the sequence is consistent.
pub open spec fn all_wf(items: Seq<Fp>) -> bool {
    forall|i: int| 0 <= i < items.len() ==> (#[trigger] items[i]).wf()
}

/// Whether every element is consistent.
pub fn all_consistent(items: &[Fp]) -> (r: bool)
    ensures
        r == all_wf(items@),
{
    let mut i: usize = 0;
    while i < items.len()
        invariant
            i <= items@.len(),
            forall|j: int| 0 <= j < i ==> (#[trigger] items@[j]).wf(),
        decreases items@.len() - i,
    {
        if !items[i].is_consistent() {
            return false;
        }
        i += 1;
    }
    true
}

/// The canonical values of the elements.
pub open spec fn values(items: Seq<Fp>) -> Seq<nat> {
    Seq::new(items.len(), |i: int| items[i].value())
}

impl FpVec {
    /// Wraps a vector.
    pub fn new(items: Vec<Fp>) -> (v: FpVec)
        ensures
            v@ == items@,
    {
        FpVec(items)
    }

    /// Unwraps the vector.
    pub fn into_inner(self) -> (items: Vec<Fp>)
        ensures
            items@ == self@,
    {
        self.0
    }

    /// A vector with the elements of `items`.
    pub fn from_slice(items: &[Fp]) -> (v: FpVec)
        ensures
            v@ == items@,
    {
        let mut copy: Vec<Fp> = Vec::new();
        let mut i: usize = 0;
        while i < items.len()
            invariant
                i <= items@.len(),
                copy@ == items@.subrange(0, i as int),
            decreases items@.len() - i,
        {
            copy.push(items[i]);
            assert(copy@ =~= items@.subrange(0, i + 1));
            i += 1;
        }
        assert(copy@ =~= items@);
        FpVec(copy)
    }

    /// Whether every element is consistent.
    pub fn is_consistent(&self) -> (r: bool)
        ensures
            r == all_wf(self@),
    {
        all_consistent(self.0.as_slice())
    }

    /// The elements as a vector.
    pub fn as_vec(&self) -> (items: &Vec<Fp>)
        ensures
            items@ == self@,
    {
        &self.0
    }

    /// The number of elements.
    pub fn len(&self) -> (n: usize)
        ensures
            n == self@.len(),
    {
        self.0.len()
    }

    /// The elements.
    pub fn as_slice(&self) -> (items: &[Fp])
        ensures
            items@ == self@,
    {
        self.0.as_slice()
    }
}

impl Shape for FpVec {
    open spec fn words(&self) -> nat {
        super::words_before(self@, self@.len())
    }

    open spec fn randomized(&self, stream: Stream, out: &FpVec) -> bool {
        &&& out@.len() == self@.len()
        &&& forall|i: int|
            0 <= i < self@.len() ==> (#[trigger] self@[i]).randomized(
                stream.skip(super::words_before(self@, i as nat)),
                &out@[i],
            )
    }
}

impl Randomize for FpVec {
    fn randomize(&mut self, rng: &mut DiceMixRng) {
        self.0.randomize(rng);
    }
}

impl Group for FpVec {
    type Element = Fp;

    open spec fn elements(&self) -> Seq<Fp> {
        self@
    }

    open spec fn valid(&self) -> bool {
        all_wf(self@)
    }

    open spec fn element_combine(a: Fp, b: Fp) -> Fp {
        a.sum(b)
    }

    open spec fn element_invert(a: Fp) -> Fp {
        a.negation()
    }

    open spec fn element_zero() -> Fp {
        Fp::with_repr(0)
    }

    /// Element `i` is made of the low 127 bits of the four words from
    /// word `4 * i` of the stream on.
    open spec fn pad_elements(len: nat, stream: Stream) -> Seq<Fp> {
        Seq::new(
            len,
            |i: int|
                Fp::with_repr(
                    (vstd::bytes::spec_u128_from_le_bytes(stream.skip(4 * i as nat).bytes(16))
                        % 0x8000_0000_0000_0000_0000_0000_0000_0000) as nat,
                ),
        )
    }
}

impl DcGroup for FpVec {
    fn zero(len: usize) -> (out: FpVec) {
        let mut items: Vec<Fp> = Vec::new();
        let mut i: usize = 0;
        while i < len
            invariant
                i <= len,
                items@.len() == i,
                forall|j: int| 0 <= j < i ==> items@[j] == Fp::with_repr(0) && items@[j].wf(),
            decreases len - i,
        {
            items.push(Fp::from_u127(0));
            i += 1;
        }
        FpVec(items)
    }

    fn combine(self, rhs: FpVec) -> (out: FpVec) {
        let mut items = self.0;
        let n: usize = items.len();
        let mut i: usize = 0;
        while i < n
            invariant
                i <= n,
                n == self@.len(),
                n == rhs@.len(),
                items@.len() == n,
                all_wf(self@),
                all_wf(rhs@),
                forall|j: int| 0 <= j < i ==> items@[j] == self@[j].sum(rhs@[j]) && items@[j].wf(),
                forall|j: int| i <= j < n ==> items@[j] == self@[j],
            decreases n - i,
        {
            let x: Fp = items[i].plus(rhs.0[i]);
            items.set(i, x);
            i += 1;
        }
        FpVec(items)
    }

    fn invert(self) -> (out: FpVec) {
        let mut items = self.0;
        let n: usize = items.len();
        let mut i: usize = 0;
        while i < n
            invariant
                i <= n,
                n == self@.len(),
                items@.len() == n,
                all_wf(self@),
                forall|j: int| 0 <= j < i ==> items@[j] == self@[j].negation() && items@[j].wf(),
                forall|j: int| i <= j < n ==> items@[j] == self@[j],
            decreases n - i,
        {
            let x: Fp = items[i].negated();
            items.set(i, x);
            i += 1;
        }
        FpVec(items)
    }

    fn duplicate(&self) -> (out: FpVec) {
        let mut items: Vec<Fp> = Vec::new();
        let mut i: usize = 0;
        while i < self.0.len()
            invariant
                i <= self@.len(),
                items@ == self@.subrange(0, i as int),
            decreases self@.len() - i,
        {
            items.push(self.0[i]);
            assert(items@ =~= self@.subrange(0, i + 1));
            i += 1;
        }
        assert(items@ =~= self@);
        FpVec(items)
    }

    proof fn lemma_randomized_is_pad(&self, stream: Stream, out: &FpVec) {
        let pad = Self::pad_elements(self@.len(), stream);
        assert forall|i: int| 0 <= i < self@.len() implies out@[i] == pad[i] && out@[i].wf() by {
            super::lemma_words_before_elements(self@, i as nat);
            assert(self@[i].randomized(stream.skip(super::words_before(self@, i as nat)), &out@[i]));
            Fp::lemma_with_repr(out@[i].repr());
            Fp::lemma_repr_injective(out@[i], pad[i]);
        }
        assert(out@ =~= pad);
    }
}

/// A vector that was masked with a pad has its values again once the pad
/// is taken off.
pub proof fn lemma_unmask_masked(vector: Seq<Fp>, pad: Seq<Fp>)
    requires
        vector.len() == pad.len(),
        all_wf(vector),
        all_wf(pad),
    ensures
        all_wf(super::unmasked::<FpVec>(super::combined::<FpVec>(vector, pad), pad)),
        values(super::unmasked::<FpVec>(super::combined::<FpVec>(vector, pad), pad)) == values(
            vector,
        ),
{
    let opened = super::unmasked::<FpVec>(super::combined::<FpVec>(vector, pad), pad);
    assert forall|i: int| 0 <= i < vector.len() implies (#[trigger] opened[i]).wf()
        && opened[i].value() == vector[i].value() by {
        crate::field::lemma_add_then_subtract(vector[i], pad[i]);
    }
    assert(values(opened) =~= values(vector));
}

/// Pads consist of consistent elements.
pub proof fn lemma_pad_elements_wf(len: nat, stream: Stream)
    ensures
        FpVec::pad_elements(len, stream).len() == len,
        all_wf(FpVec::pad_elements(len, stream)),
{
    let pad = FpVec::pad_elements(len, stream);
    assert forall|i: int| 0 <= i < pad.len() implies (#[trigger] pad[i]).wf() by {
        let x = vstd::bytes::spec_u128_from_le_bytes(stream.skip(4 * i as nat).bytes(16));
        Fp::lemma_with_repr((x % 0x8000_0000_0000_0000_0000_0000_0000_0000) as nat);
    }
}

/// Combining consistent vectors gives a consistent vector.
pub proof fn lemma_combined_wf(a: Seq<Fp>, b: Seq<Fp>)
    requires
        a.len() == b.len(),
        all_wf(a),
        all_wf(b),
    ensures
        all_wf(super::combined::<FpVec>(a, b)),
        super::combined::<FpVec>(a, b).len() == a.len(),
{
    let c = super::combined::<FpVec>(a, b);
    assert forall|i: int| 0 <= i < c.len() implies (#[trigger] c[i]).wf() by {
        crate::field::lemma_sum_value(a[i], b[i]);
    }
}

/// Taking a consistent pad off a consistent vector gives a consistent
/// vector.
pub proof fn lemma_unmasked_wf(masked: Seq<Fp>, pad: Seq<Fp>)
    requires
        masked.len() == pad.len(),
        all_wf(masked),
        all_wf(pad),
    ensures
        all_wf(super::unmasked::<FpVec>(masked, pad)),
        super::unmasked::<FpVec>(masked, pad).len() == masked.len(),
{
    let inverse = super::inverted::<FpVec>(pad);
    assert forall|i: int| 0 <= i < inverse.len() implies (#[trigger] inverse[i]).wf() by {
        crate::field::lemma_negation_value(pad[i]);
    }
    lemma_combined_wf(masked, inverse);
}

} // verus!
