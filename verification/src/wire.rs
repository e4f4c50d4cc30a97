//! The byte layout of protocol messages.
//!
//! Every type that travels on the wire has an encoding and a parser, both
//! given as specifications over byte sequences and both implemented.
//! Integers are little-endian and of fixed width, a vector is its length as
//! a 64-bit integer followed by its items, an enum is the index of its
//! variant as a 32-bit integer followed by the variant's fields, and fixed
//! arrays and structs are their fields in order.  The two laws that every
//! implementation proves make the layout unambiguous: what is encoded is
//! parsed back, and what is parsed was encoded.

use vstd::bytes::{
    lemma_auto_spec_u128_to_from_le_bytes, lemma_auto_spec_u32_to_from_le_bytes,
    lemma_auto_spec_u64_to_from_le_bytes, spec_u128_from_le_bytes, spec_u128_to_le_bytes,
    spec_u32_from_le_bytes, spec_u32_to_le_bytes, spec_u64_from_le_bytes, spec_u64_to_le_bytes,
    u128_from_le_bytes, u128_to_le_bytes, u32_from_le_bytes, u32_to_le_bytes, u64_from_le_bytes,
    u64_to_le_bytes,
};
use vstd::prelude::*;
use vstd::slice::slice_subrange;

verus! {

/// A type with a byte layout.
pub trait Layout: Sized {
    /// The mathematical value that the layout speaks of.
    type Model;

    /// The model of a value.
    spec fn model(&self) -> Self::Model;

    /// The models that have an encoding: those of well-formed values.
    spec fn encodable(v: Self::Model) -> bool;

    /// The encoding of a model.
    spec fn encoding(v: Self::Model) -> Seq<u8>;

    /// The model that is encoded in `bytes` from position `at` on, and the
    /// position behind it; `None` if no encoding starts there.
    spec fn parse(bytes: Seq<u8>, at: int) -> Option<(Self::Model, int)>;
}

/// A type that is written to and read from bytes in its layout.
pub trait Wire: Layout {
    /// Appends the encoding of the value.
    fn write(&self, out: &mut Vec<u8>)
        ensures
            final(out)@ == old(out)@ + Self::encoding(self.model()),
    ;

    /// Parses a value from position `at` on.
    fn read(bytes: &[u8], at: usize) -> (r: Option<(Self, usize)>)
        requires
            at <= bytes@.len(),
        ensures
            match r {
                Some((value, end)) => Self::parse(bytes@, at as int) == Some(
                    (value.model(), end as int),
                ),
                None => Self::parse(bytes@, at as int) is None,
            },
    ;

    /// What is encoded is parsed back, wherever the encoding stands.
    proof fn lemma_parse_encoding(v: Self::Model, bytes: Seq<u8>, at: int)
        requires
            Self::encodable(v),
            0 <= at,
            at + Self::encoding(v).len() <= bytes.len(),
            bytes.subrange(at, at + Self::encoding(v).len()) == Self::encoding(v),
        ensures
            Self::parse(bytes, at) == Some((v, at + Self::encoding(v).len())),
    ;

    /// What is parsed was encoded: the bytes that were read are the
    /// encoding of the model that came out, and that model is encodable.
    proof fn lemma_parse_sound(bytes: Seq<u8>, at: int)
        requires
            0 <= at <= bytes.len(),
            Self::parse(bytes, at) is Some,
        ensures
            ({
                let (v, end) = Self::parse(bytes, at)->0;
                &&& at <= end <= bytes.len()
                &&& Self::encodable(v)
                &&& bytes.subrange(at, end) == Self::encoding(v)
            }),
    ;
}

/// The `n` bytes from position `at` on, if there are that many.
pub open spec fn take(bytes: Seq<u8>, at: int, n: nat) -> Option<Seq<u8>> {
    if 0 <= at && at + n <= bytes.len() {
        Some(bytes.subrange(at, at + n))
    } else {
        None
    }
}

/// Reads `n` bytes from position `at` on.
pub fn take_bytes(bytes: &[u8], at: usize, n: usize) -> (r: Option<&[u8]>)
    requires
        at <= bytes@.len(),
    ensures
        match r {
            Some(piece) => take(bytes@, at as int, n as nat) == Some(piece@),
            None => take(bytes@, at as int, n as nat) is None,
        },
        r is Some ==> at + n <= usize::MAX,
{
    if n <= bytes.len() - at {
        Some(slice_subrange(bytes, at, at + n))
    } else {
        None
    }
}

/// Appends `piece` to `out`.
pub fn append(out: &mut Vec<u8>, piece: &[u8])
    ensures
        final(out)@ == old(out)@ + piece@,
{
    let mut i: usize = 0;
    while i < piece.len()
        invariant
            i <= piece@.len(),
            out@ == old(out)@ + piece@.subrange(0, i as int),
        decreases piece@.len() - i,
    {
        out.push(piece[i]);
        assert(out@ =~= old(out)@ + piece@.subrange(0, i + 1));
        i += 1;
    }
    assert(piece@.subrange(0, piece@.len() as int) =~= piece@);
}

impl Layout for u8 {
    type Model = u8;

    open spec fn model(&self) -> u8 {
        *self
    }

    open spec fn encodable(v: u8) -> bool {
        true
    }

    open spec fn encoding(v: u8) -> Seq<u8> {
        seq![v]
    }

    open spec fn parse(bytes: Seq<u8>, at: int) -> Option<(u8, int)> {
        match take(bytes, at, 1) {
            Some(piece) => Some((piece[0], at + 1)),
            None => None,
        }
    }
}

impl Wire for u8 {
    fn write(&self, out: &mut Vec<u8>) {
        out.push(*self);
        assert(out@ =~= old(out)@ + seq![*self]);
    }

    fn read(bytes: &[u8], at: usize) -> (r: Option<(u8, usize)>) {
        if at < bytes.len() {
            Some((bytes[at], at + 1))
        } else {
            None
        }
    }

    proof fn lemma_parse_encoding(v: u8, bytes: Seq<u8>, at: int) {
        assert(bytes.subrange(at, at + 1)[0] == seq![v][0]);
    }

    proof fn lemma_parse_sound(bytes: Seq<u8>, at: int) {
        assert(bytes.subrange(at, at + 1) =~= seq![bytes[at]]);
    }
}

impl Layout for bool {
    type Model = bool;

    open spec fn model(&self) -> bool {
        *self
    }

    open spec fn encodable(v: bool) -> bool {
        true
    }

    open spec fn encoding(v: bool) -> Seq<u8> {
        seq![if v { 1u8 } else { 0u8 }]
    }

    open spec fn parse(bytes: Seq<u8>, at: int) -> Option<(bool, int)> {
        match take(bytes, at, 1) {
            Some(piece) => if piece[0] == 0 {
                Some((false, at + 1))
            } else if piece[0] == 1 {
                Some((true, at + 1))
            } else {
                None
            },
            None => None,
        }
    }
}

impl Wire for bool {
    fn write(&self, out: &mut Vec<u8>) {
        let byte: u8 = if *self {
            1
        } else {
            0
        };
        out.push(byte);
        assert(out@ =~= old(out)@ + seq![byte]);
    }

    fn read(bytes: &[u8], at: usize) -> (r: Option<(bool, usize)>) {
        if at < bytes.len() {
            let byte: u8 = bytes[at];
            if byte == 0 {
                Some((false, at + 1))
            } else if byte == 1 {
                Some((true, at + 1))
            } else {
                None
            }
        } else {
            None
        }
    }

    proof fn lemma_parse_encoding(v: bool, bytes: Seq<u8>, at: int) {
        assert(bytes.subrange(at, at + 1)[0] == Self::encoding(v)[0]);
    }

    proof fn lemma_parse_sound(bytes: Seq<u8>, at: int) {
        let (v, end) = Self::parse(bytes, at)->0;
        assert(bytes.subrange(at, at + 1) =~= Self::encoding(v));
    }
}

impl Layout for u32 {
    type Model = u32;

    open spec fn model(&self) -> u32 {
        *self
    }

    open spec fn encodable(v: u32) -> bool {
        true
    }

    open spec fn encoding(v: u32) -> Seq<u8> {
        spec_u32_to_le_bytes(v)
    }

    open spec fn parse(bytes: Seq<u8>, at: int) -> Option<(u32, int)> {
        match take(bytes, at, 4) {
            Some(piece) => Some((spec_u32_from_le_bytes(piece), at + 4)),
            None => None,
        }
    }
}

impl Wire for u32 {
    fn write(&self, out: &mut Vec<u8>) {
        let piece = u32_to_le_bytes(*self);
        append(out, piece.as_slice());
    }

    fn read(bytes: &[u8], at: usize) -> (r: Option<(u32, usize)>) {
        match take_bytes(bytes, at, 4) {
            Some(piece) => Some((u32_from_le_bytes(piece), at + 4)),
            None => None,
        }
    }

    proof fn lemma_parse_encoding(v: u32, bytes: Seq<u8>, at: int) {
        lemma_auto_spec_u32_to_from_le_bytes();
    }

    proof fn lemma_parse_sound(bytes: Seq<u8>, at: int) {
        lemma_auto_spec_u32_to_from_le_bytes();
    }
}

impl Layout for u64 {
    type Model = u64;

    open spec fn model(&self) -> u64 {
        *self
    }

    open spec fn encodable(v: u64) -> bool {
        true
    }

    open spec fn encoding(v: u64) -> Seq<u8> {
        spec_u64_to_le_bytes(v)
    }

    open spec fn parse(bytes: Seq<u8>, at: int) -> Option<(u64, int)> {
        match take(bytes, at, 8) {
            Some(piece) => Some((spec_u64_from_le_bytes(piece), at + 8)),
            None => None,
        }
    }
}

impl Wire for u64 {
    fn write(&self, out: &mut Vec<u8>) {
        let piece = u64_to_le_bytes(*self);
        append(out, piece.as_slice());
    }

    fn read(bytes: &[u8], at: usize) -> (r: Option<(u64, usize)>) {
        match take_bytes(bytes, at, 8) {
            Some(piece) => Some((u64_from_le_bytes(piece), at + 8)),
            None => None,
        }
    }

    proof fn lemma_parse_encoding(v: u64, bytes: Seq<u8>, at: int) {
        lemma_auto_spec_u64_to_from_le_bytes();
    }

    proof fn lemma_parse_sound(bytes: Seq<u8>, at: int) {
        lemma_auto_spec_u64_to_from_le_bytes();
    }
}

/// A range that holds `a + b` holds `a` first and `b` behind it.
pub proof fn lemma_split(bytes: Seq<u8>, at: int, a: Seq<u8>, b: Seq<u8>)
    requires
        0 <= at,
        at + a.len() + b.len() <= bytes.len(),
        bytes.subrange(at, at + a.len() + b.len()) == a + b,
    ensures
        bytes.subrange(at, at + a.len()) == a,
        bytes.subrange(at + a.len(), at + a.len() + b.len()) == b,
{
    let whole = bytes.subrange(at, at + a.len() + b.len());
    assert forall|i: int| 0 <= i < a.len() implies bytes[at + i] == a[i] by {
        assert(whole[i] == (a + b)[i]);
    }
    assert forall|i: int| 0 <= i < b.len() implies bytes[at + a.len() + i] == b[i] by {
        assert(whole[a.len() + i] == (a + b)[a.len() + i]);
    }
    assert(bytes.subrange(at, at + a.len()) =~= a);
    assert(bytes.subrange(at + a.len(), at + a.len() + b.len()) =~= b);
}

/// Two adjoining ranges make up the range that spans them.
pub proof fn lemma_join(bytes: Seq<u8>, at: int, mid: int, end: int)
    requires
        0 <= at <= mid <= end <= bytes.len(),
    ensures
        bytes.subrange(at, mid) + bytes.subrange(mid, end) == bytes.subrange(at, end),
{
    assert(bytes.subrange(at, mid) + bytes.subrange(mid, end) =~= bytes.subrange(at, end));
}

impl Layout for crate::field::Fp {
    /// A field element travels as its canonical integer.
    type Model = u128;

    open spec fn model(&self) -> u128 {
        self.canonical() as u128
    }

    open spec fn encodable(v: u128) -> bool {
        v < crate::field::P
    }

    open spec fn encoding(v: u128) -> Seq<u8> {
        spec_u128_to_le_bytes(v)
    }

    open spec fn parse(bytes: Seq<u8>, at: int) -> Option<(u128, int)> {
        match take(bytes, at, 16) {
            Some(piece) => if spec_u128_from_le_bytes(piece) < crate::field::P {
                Some((spec_u128_from_le_bytes(piece), at + 16))
            } else {
                None
            },
            None => None,
        }
    }
}

impl Wire for crate::field::Fp {
    fn write(&self, out: &mut Vec<u8>) {
        let piece = u128_to_le_bytes(self.to_u128());
        append(out, piece.as_slice());
    }

    fn read(bytes: &[u8], at: usize) -> (r: Option<(crate::field::Fp, usize)>) {
        match take_bytes(bytes, at, 16) {
            Some(piece) => {
                let x: u128 = u128_from_le_bytes(piece);
                if x < crate::field::P {
                    let element = crate::field::Fp::from_u127(x);
                    proof {
                        element.lemma_canonical_is_value();
                        vstd::arithmetic::div_mod::lemma_small_mod(
                            x as nat,
                            crate::field::P as nat,
                        );
                    }
                    Some((element, at + 16))
                } else {
                    None
                }
            },
            None => None,
        }
    }

    proof fn lemma_parse_encoding(v: u128, bytes: Seq<u8>, at: int) {
        lemma_auto_spec_u128_to_from_le_bytes();
    }

    proof fn lemma_parse_sound(bytes: Seq<u8>, at: int) {
        lemma_auto_spec_u128_to_from_le_bytes();
    }
}

impl Layout for [u8; 32] {
    type Model = Seq<u8>;

    open spec fn model(&self) -> Seq<u8> {
        self@
    }

    open spec fn encodable(v: Seq<u8>) -> bool {
        v.len() == 32
    }

    open spec fn encoding(v: Seq<u8>) -> Seq<u8> {
        v
    }

    open spec fn parse(bytes: Seq<u8>, at: int) -> Option<(Seq<u8>, int)> {
        match take(bytes, at, 32) {
            Some(piece) => Some((piece, at + 32)),
            None => None,
        }
    }
}

impl Wire for [u8; 32] {
    fn write(&self, out: &mut Vec<u8>) {
        append(out, self.as_slice());
    }

    fn read(bytes: &[u8], at: usize) -> (r: Option<([u8; 32], usize)>) {
        if 32 <= bytes.len() - at {
            Some((crate::keys::array_from_slice_32(bytes, at), at + 32))
        } else {
            None
        }
    }

    proof fn lemma_parse_encoding(v: Seq<u8>, bytes: Seq<u8>, at: int) {
    }

    proof fn lemma_parse_sound(bytes: Seq<u8>, at: int) {
    }
}

impl<A: Layout, B: Layout> Layout for (A, B) {
    type Model = (A::Model, B::Model);

    open spec fn model(&self) -> (A::Model, B::Model) {
        (self.0.model(), self.1.model())
    }

    open spec fn encodable(v: (A::Model, B::Model)) -> bool {
        A::encodable(v.0) && B::encodable(v.1)
    }

    open spec fn encoding(v: (A::Model, B::Model)) -> Seq<u8> {
        A::encoding(v.0) + B::encoding(v.1)
    }

    open spec fn parse(bytes: Seq<u8>, at: int) -> Option<((A::Model, B::Model), int)> {
        match A::parse(bytes, at) {
            Some((first, mid)) => if at <= mid <= bytes.len() {
                match B::parse(bytes, mid) {
                    Some((second, end)) => Some(((first, second), end)),
                    None => None,
                }
            } else {
                None
            },
            None => None,
        }
    }
}

impl<A: Wire, B: Wire> Wire for (A, B) {
    fn write(&self, out: &mut Vec<u8>) {
        self.0.write(out);
        self.1.write(out);
        assert(out@ =~= old(out)@ + (A::encoding(self.0.model()) + B::encoding(self.1.model())));
    }

    fn read(bytes: &[u8], at: usize) -> (r: Option<((A, B), usize)>) {
        match A::read(bytes, at) {
            Some((first, mid)) => {
                proof {
                    A::lemma_parse_sound(bytes@, at as int);
                }
                match B::read(bytes, mid) {
                    Some((second, end)) => Some(((first, second), end)),
                    None => None,
                }
            },
            None => None,
        }
    }

    proof fn lemma_parse_encoding(v: (A::Model, B::Model), bytes: Seq<u8>, at: int) {
        lemma_split(bytes, at, A::encoding(v.0), B::encoding(v.1));
        A::lemma_parse_encoding(v.0, bytes, at);
        B::lemma_parse_encoding(v.1, bytes, at + A::encoding(v.0).len());
    }

    proof fn lemma_parse_sound(bytes: Seq<u8>, at: int) {
        A::lemma_parse_sound(bytes, at);
        let (first, mid) = A::parse(bytes, at)->0;
        B::lemma_parse_sound(bytes, mid);
        let (second, end) = B::parse(bytes, mid)->0;
        lemma_join(bytes, at, mid, end);
    }
}

/// The models of the items of a vector.
pub open spec fn models<T: Layout>(items: Seq<T>) -> Seq<T::Model> {
    Seq::new(items.len(), |i: int| items[i].model())
}

/// Every item is encodable.
pub open spec fn all_encodable<T: Layout>(items: Seq<T::Model>) -> bool {
    forall|i: int| 0 <= i < items.len() ==> T::encodable(#[trigger] items[i])
}

/// The encodings of the items, one after the other.
pub open spec fn encoding_of_items<T: Layout>(items: Seq<T::Model>) -> Seq<u8>
    decreases items.len(),
{
    if items.len() == 0 {
        Seq::empty()
    } else {
        encoding_of_items::<T>(items.drop_last()) + T::encoding(items.last())
    }
}

/// The `n` items that are encoded one after the other from position `at`
/// on, and the position behind the last.
pub open spec fn parse_items<T: Layout>(bytes: Seq<u8>, at: int, n: nat) -> Option<
    (Seq<T::Model>, int),
>
    decreases n,
{
    if n == 0 {
        Some((Seq::empty(), at))
    } else {
        match parse_items::<T>(bytes, at, (n - 1) as nat) {
            Some((items, mid)) => match T::parse(bytes, mid) {
                Some((item, end)) => Some((items.push(item), end)),
                None => None,
            },
            None => None,
        }
    }
}

/// Where fewer items cannot be parsed, more cannot either.
pub proof fn lemma_parse_items_fails<T: Wire>(bytes: Seq<u8>, at: int, k: nat, n: nat)
    requires
        k <= n,
        parse_items::<T>(bytes, at, k) is None,
    ensures
        parse_items::<T>(bytes, at, n) is None,
    decreases n,
{
    if k < n {
        lemma_parse_items_fails::<T>(bytes, at, k, (n - 1) as nat);
    }
}

/// The encoding of the first `k` items, followed by that of the next item,
/// is the encoding of the first `k + 1` items.
pub proof fn lemma_encoding_of_items_step<T: Wire>(items: Seq<T::Model>, k: int)
    requires
        0 <= k < items.len(),
    ensures
        encoding_of_items::<T>(items.take(k + 1)) == encoding_of_items::<T>(items.take(k))
            + T::encoding(items[k]),
{
    assert(items.take(k + 1).drop_last() =~= items.take(k));
}

/// The encoding of the first `k` items is a prefix of the encoding of all
/// items.
pub proof fn lemma_encoding_of_items_prefix<T: Wire>(items: Seq<T::Model>, k: int)
    requires
        0 <= k <= items.len(),
    ensures
        encoding_of_items::<T>(items.take(k)).is_prefix_of(encoding_of_items::<T>(items)),
    decreases items.len() - k,
{
    if k == items.len() {
        assert(items.take(k) =~= items);
    } else {
        lemma_encoding_of_items_step::<T>(items, k);
        lemma_encoding_of_items_prefix::<T>(items, k + 1);
        let shorter = encoding_of_items::<T>(items.take(k));
        let longer = encoding_of_items::<T>(items.take(k + 1));
        let all = encoding_of_items::<T>(items);
        assert forall|i: int| 0 <= i < shorter.len() implies shorter[i] == all[i] by {
            assert(longer[i] == all[i]);
        }
    }
}

/// The items that were encoded one after the other are parsed back.
pub proof fn lemma_parse_items_encoding<T: Wire>(
    items: Seq<T::Model>,
    bytes: Seq<u8>,
    at: int,
    k: int,
)
    requires
        all_encodable::<T>(items),
        0 <= at,
        at + encoding_of_items::<T>(items).len() <= bytes.len(),
        bytes.subrange(at, at + encoding_of_items::<T>(items).len()) == encoding_of_items::<T>(
            items,
        ),
        0 <= k <= items.len(),
    ensures
        parse_items::<T>(bytes, at, k as nat) == Some(
            (items.take(k), at + encoding_of_items::<T>(items.take(k)).len()),
        ),
    decreases k,
{
    if k == 0 {
        assert(items.take(0) =~= Seq::<T::Model>::empty());
    } else {
        lemma_parse_items_encoding::<T>(items, bytes, at, k - 1);
        lemma_encoding_of_items_step::<T>(items, k - 1);
        lemma_encoding_of_items_prefix::<T>(items, k);
        let all = encoding_of_items::<T>(items);
        let before = encoding_of_items::<T>(items.take(k - 1));
        let upto = encoding_of_items::<T>(items.take(k));
        let item = T::encoding(items[k - 1]);
        let mid = at + before.len();
        assert forall|j: int| 0 <= j < item.len() implies bytes[mid + j] == item[j] by {
            assert(bytes.subrange(at, at + all.len())[before.len() + j] == all[before.len() + j]);
            assert(upto[before.len() + j] == item[j]);
        }
        assert(bytes.subrange(mid, mid + item.len()) =~= item);
        T::lemma_parse_encoding(items[k - 1], bytes, mid);
        assert(items.take(k - 1).push(items[k - 1]) =~= items.take(k));
    }
}

/// The items that are parsed were encoded one after the other.
pub proof fn lemma_parse_items_sound<T: Wire>(bytes: Seq<u8>, at: int, n: nat)
    requires
        0 <= at <= bytes.len(),
        parse_items::<T>(bytes, at, n) is Some,
    ensures
        ({
            let (items, end) = parse_items::<T>(bytes, at, n)->0;
            &&& at <= end <= bytes.len()
            &&& items.len() == n
            &&& all_encodable::<T>(items)
            &&& bytes.subrange(at, end) == encoding_of_items::<T>(items)
        }),
    decreases n,
{
    if n == 0 {
        assert(bytes.subrange(at, at) =~= Seq::<u8>::empty());
    } else {
        lemma_parse_items_sound::<T>(bytes, at, (n - 1) as nat);
        let (before, mid) = parse_items::<T>(bytes, at, (n - 1) as nat)->0;
        T::lemma_parse_sound(bytes, mid);
        let (item, end) = T::parse(bytes, mid)->0;
        let items = before.push(item);
        assert(items.drop_last() =~= before);
        lemma_join(bytes, at, mid, end);
    }
}

impl<T: Layout> Layout for Vec<T> {
    type Model = Seq<T::Model>;

    open spec fn model(&self) -> Seq<T::Model> {
        models(self@)
    }

    open spec fn encodable(v: Seq<T::Model>) -> bool {
        v.len() <= u64::MAX && all_encodable::<T>(v)
    }

    /// The number of items as a 64-bit integer, then the items.
    open spec fn encoding(v: Seq<T::Model>) -> Seq<u8> {
        spec_u64_to_le_bytes(v.len() as u64) + encoding_of_items::<T>(v)
    }

    open spec fn parse(bytes: Seq<u8>, at: int) -> Option<(Seq<T::Model>, int)> {
        match u64::parse(bytes, at) {
            Some((n, start)) => parse_items::<T>(bytes, start, n as nat),
            None => None,
        }
    }
}

impl<T: Wire> Wire for Vec<T> {
    fn write(&self, out: &mut Vec<u8>) {
        let n: usize = self.len();
        (n as u64).write(out);
        let ghost all = models(self@);
        let ghost head = old(out)@ + spec_u64_to_le_bytes(n as u64);
        let mut i: usize = 0;
        proof {
            assert(all.take(0) =~= Seq::<T::Model>::empty());
            assert(out@ =~= head + encoding_of_items::<T>(all.take(0)));
        }
        while i < n
            invariant
                i <= n,
                n == self@.len(),
                all == models(self@),
                out@ == head + encoding_of_items::<T>(all.take(i as int)),
            decreases n - i,
        {
            let ghost before = out@;
            self[i].write(out);
            proof {
                lemma_encoding_of_items_step::<T>(all, i as int);
                assert(out@ =~= head + encoding_of_items::<T>(all.take(i + 1)));
            }
            i += 1;
        }
        proof {
            assert(all.take(n as int) =~= all);
            assert(out@ =~= old(out)@ + Self::encoding(self.model()));
        }
    }

    fn read(bytes: &[u8], at: usize) -> (r: Option<(Vec<T>, usize)>) {
        match u64::read(bytes, at) {
            None => None,
            Some((n, start)) => {
                let mut items: Vec<T> = Vec::new();
                let mut cur: usize = start;
                let mut i: u64 = 0;
                proof {
                    u64::lemma_parse_sound(bytes@, at as int);
                    assert(models(items@) =~= Seq::<T::Model>::empty());
                }
                while i < n
                    invariant
                        i <= n,
                        start <= cur <= bytes@.len(),
                        u64::parse(bytes@, at as int) == Some((n, start as int)),
                        parse_items::<T>(bytes@, start as int, i as nat) == Some(
                            (models(items@), cur as int),
                        ),
                    decreases n - i,
                {
                    match T::read(bytes, cur) {
                        None => {
                            proof {
                                let next = (i + 1) as nat;
                                assert(parse_items::<T>(bytes@, start as int, (next - 1) as nat)
                                    == Some((models(items@), cur as int)));
                                assert(parse_items::<T>(bytes@, start as int, next) is None);
                                lemma_parse_items_fails::<T>(bytes@, start as int, next, n as nat);
                            }
                            return None;
                        },
                        Some((item, end)) => {
                            proof {
                                T::lemma_parse_sound(bytes@, cur as int);
                                assert(models(items@.push(item)) =~= models(items@).push(
                                    item.model(),
                                ));
                            }
                            items.push(item);
                            cur = end;
                        },
                    }
                    i += 1;
                }
                Some((items, cur))
            },
        }
    }

    proof fn lemma_parse_encoding(v: Seq<T::Model>, bytes: Seq<u8>, at: int) {
        lemma_auto_spec_u64_to_from_le_bytes();
        let head = spec_u64_to_le_bytes(v.len() as u64);
        lemma_split(bytes, at, head, encoding_of_items::<T>(v));
        u64::lemma_parse_encoding(v.len() as u64, bytes, at);
        lemma_parse_items_encoding::<T>(v, bytes, at + 8, v.len() as int);
        assert(v.take(v.len() as int) =~= v);
    }

    proof fn lemma_parse_sound(bytes: Seq<u8>, at: int) {
        lemma_auto_spec_u64_to_from_le_bytes();
        u64::lemma_parse_sound(bytes, at);
        let (n, start) = u64::parse(bytes, at)->0;
        lemma_parse_items_sound::<T>(bytes, start, n as nat);
        let (items, end) = parse_items::<T>(bytes, start, n as nat)->0;
        lemma_join(bytes, at, start, end);
    }
}

/// The model of a byte vector is the bytes themselves.
pub proof fn lemma_bytes_model(bytes: Vec<u8>)
    ensures
        bytes.model() == bytes@,
{
    assert(bytes.model() =~= bytes@);
}

} // verus!
