//! Power sums, and what is asked of the service that recovers values from
//! them.
//!
//! The exponential DC-net yields the first `n` power sums of `n` unknown
//! field elements.  Recovering the elements means finding the roots of the
//! polynomial whose coefficients follow from the power sums by Newton's
//! identities.  That is the work of a service outside this library.  The
//! library computes power sums and checks every answer that the service
//! gives against them, so a wrong answer is never taken for the values.

use self::hex::{from_hex, hex_digits, hex_value, is_hex, to_hex};
use crate::dc::fp::all_wf;
use crate::field::{lemma_product_value, lemma_sum_value, residue, Fp, P};
use vstd::prelude::*;

pub mod hex;

verus! {

/// The element one.
pub open spec fn one() -> Fp {
    Fp::with_repr(1)
}

/// The element zero.
pub open spec fn zero() -> Fp {
    Fp::with_repr(0)
}

/// `x` to the power of `k`.
pub open spec fn power(x: Fp, k: nat) -> Fp
    decreases k,
{
    if k == 0 {
        one()
    } else {
        power(x, (k - 1) as nat).product(x)
    }
}

/// The sum of the `k`-th powers of the first `n` values.
pub open spec fn power_sum(values: Seq<Fp>, n: nat, k: nat) -> Fp
    decreases n,
{
    if n == 0 {
        zero()
    } else {
        power_sum(values, (n - 1) as nat, k).sum(power(values[n - 1], k))
    }
}

/// The first `count` power sums of the values: the sums of the first, the
/// second, ... powers.
pub open spec fn power_sums(values: Seq<Fp>, count: nat) -> Seq<Fp> {
    Seq::new(count, |k: int| power_sum(values, values.len(), (k + 1) as nat))
}

/// The first `count` powers of `x`, from `x` itself on.
pub open spec fn powers(x: Fp, count: nat) -> Seq<Fp> {
    Seq::new(count, |k: int| power(x, (k + 1) as nat))
}

/// `values` has the power sums `sums`: there are as many values as sums,
/// and the sum of the `k`-th powers of the values equals the `k`-th sum in
/// the field.
pub open spec fn solves(sums: Seq<Fp>, values: Seq<Fp>) -> bool {
    &&& values.len() == sums.len()
    &&& all_wf(values)
    &&& forall|k: int|
        0 <= k < sums.len() ==> (#[trigger] power_sum(values, values.len(), (k + 1) as nat)).same(
            sums[k],
        )
}

/// Powers of consistent elements are consistent.
pub proof fn lemma_power_wf(x: Fp, k: nat)
    requires
        x.wf(),
    ensures
        power(x, k).wf(),
    decreases k,
{
    if k == 0 {
        Fp::lemma_with_repr(1);
    } else {
        lemma_power_wf(x, (k - 1) as nat);
        lemma_product_value(power(x, (k - 1) as nat), x);
    }
}

/// Power sums of consistent elements are consistent.
pub proof fn lemma_power_sum_wf(values: Seq<Fp>, n: nat, k: nat)
    requires
        all_wf(values),
        n <= values.len(),
    ensures
        power_sum(values, n, k).wf(),
    decreases n,
{
    if n == 0 {
        Fp::lemma_with_repr(0);
    } else {
        lemma_power_sum_wf(values, (n - 1) as nat, k);
        lemma_power_wf(values[n - 1], k);
        lemma_sum_value(power_sum(values, (n - 1) as nat, k), power(values[n - 1], k));
    }
}

/// The first power of an element is the element.
pub proof fn lemma_first_power(x: Fp)
    requires
        x.wf(),
    ensures
        power(x, 1).wf(),
        power(x, 1).same(x),
{
    reveal_with_fuel(power, 2);
    Fp::lemma_with_repr(1);
    vstd::arithmetic::div_mod::lemma_small_mod(1, P as nat);
    assert(one().wf() && one().value() == 1);
    lemma_product_value(one(), x);
    x.lemma_canonical_is_value();
    vstd::arithmetic::div_mod::lemma_small_mod(x.value(), P as nat);
    assert(one().value() * x.value() == x.value()) by (nonlinear_arith)
        requires
            one().value() == 1,
    ;
}

/// Equal elements have equal powers.
pub proof fn lemma_power_of_same(a: Fp, b: Fp, k: nat)
    requires
        a.wf(),
        b.wf(),
        a.same(b),
    ensures
        power(a, k).wf(),
        power(b, k).wf(),
        power(a, k).same(power(b, k)),
    decreases k,
{
    lemma_power_wf(a, k);
    lemma_power_wf(b, k);
    if k > 0 {
        lemma_power_of_same(a, b, (k - 1) as nat);
        lemma_product_value(power(a, (k - 1) as nat), a);
        lemma_product_value(power(b, (k - 1) as nat), b);
    }
}

/// The sum of the values of the `k`-th powers, taken in the integers.
pub open spec fn total(values: Seq<Fp>, k: nat) -> nat
    decreases values.len(),
{
    if values.len() == 0 {
        0
    } else {
        total(values.drop_last(), k) + power(values.last(), k).value()
    }
}

/// The value of a power sum is the sum of the values of the powers, reduced
/// modulo the field size.
pub proof fn lemma_power_sum_value(values: Seq<Fp>, n: nat, k: nat)
    requires
        all_wf(values),
        n <= values.len(),
    ensures
        power_sum(values, n, k).value() == residue(total(values.take(n as int), k) as int),
    decreases n,
{
    if n == 0 {
        Fp::lemma_with_repr(0);
        assert(values.take(0) =~= Seq::<Fp>::empty());
        vstd::arithmetic::div_mod::lemma_small_mod(0, P as nat);
    } else {
        let before = power_sum(values, (n - 1) as nat, k);
        let term = power(values[n - 1], k);
        lemma_power_sum_value(values, (n - 1) as nat, k);
        lemma_power_sum_wf(values, (n - 1) as nat, k);
        lemma_power_wf(values[n - 1], k);
        lemma_sum_value(before, term);
        let shorter = total(values.take(n - 1), k) as int;
        assert(values.take(n as int).drop_last() =~= values.take(n - 1));
        assert(values.take(n as int).last() == values[n - 1]);
        term.lemma_canonical_is_value();
        vstd::arithmetic::div_mod::lemma_add_mod_noop(shorter, term.value() as int, P as int);
        vstd::arithmetic::div_mod::lemma_small_mod(term.value(), P as nat);
    }
}

/// Taking a value out takes the value of its power out of the total.
pub proof fn lemma_total_remove(values: Seq<Fp>, j: int, k: nat)
    requires
        0 <= j < values.len(),
    ensures
        total(values, k) == total(values.remove(j), k) + power(values[j], k).value(),
    decreases values.len(),
{
    if j == values.len() - 1 {
        assert(values.remove(j) =~= values.drop_last());
    } else {
        lemma_total_remove(values.drop_last(), j, k);
        assert(values.remove(j).drop_last() =~= values.drop_last().remove(j));
        assert(values.remove(j).last() == values.last());
    }
}

/// The total does not depend on the order of the values.
pub proof fn lemma_total_of_multiset(a: Seq<Fp>, b: Seq<Fp>, k: nat)
    requires
        a.to_multiset() == b.to_multiset(),
    ensures
        total(a, k) == total(b, k),
    decreases a.len(),
{
    a.to_multiset_ensures();
    b.to_multiset_ensures();
    if a.len() > 0 {
        let x = a.last();
        assert(a.contains(x)) by {
            assert(a[a.len() - 1] == x);
        }
        assert(b.to_multiset().count(x) > 0);
        assert(b.contains(x));
        let j = choose|j: int| 0 <= j < b.len() && b[j] == x;
        assert(a.remove(a.len() - 1) =~= a.drop_last());
        assert(a.drop_last().to_multiset() =~= b.remove(j).to_multiset());
        lemma_total_of_multiset(a.drop_last(), b.remove(j), k);
        lemma_total_remove(b, j, k);
    } else {
        assert(b.len() == 0);
    }
}

/// The values have their own power sums, in whatever order they are
/// given: the check of an answer accepts every arrangement of the values
/// whose power sums were asked for.
pub proof fn lemma_values_solve_their_power_sums(values: Seq<Fp>, arranged: Seq<Fp>)
    requires
        all_wf(values),
        arranged.to_multiset() == values.to_multiset(),
    ensures
        solves(power_sums(values, values.len()), arranged),
{
    values.to_multiset_ensures();
    arranged.to_multiset_ensures();
    assert forall|i: int| 0 <= i < arranged.len() implies (#[trigger] arranged[i]).wf() by {
        assert(arranged.contains(arranged[i]));
        assert(values.to_multiset().count(arranged[i]) > 0);
        assert(values.contains(arranged[i]));
        let j = choose|j: int| 0 <= j < values.len() && values[j] == arranged[i];
        assert(values[j].wf());
    }
    let sums = power_sums(values, values.len());
    assert forall|k: int| 0 <= k < sums.len() implies (#[trigger] power_sum(
        arranged,
        arranged.len(),
        (k + 1) as nat,
    )).same(sums[k]) by {
        let e = (k + 1) as nat;
        lemma_power_sum_value(arranged, arranged.len(), e);
        lemma_power_sum_value(values, values.len(), e);
        assert(arranged.take(arranged.len() as int) =~= arranged);
        assert(values.take(values.len() as int) =~= values);
        lemma_total_of_multiset(arranged, values, e);
    }
}

/// The return value with which the recovery service hands over the values.
pub const RET_OK: i32 = 0;

/// The return value with which the recovery service says that no values
/// have the power sums.
pub const RET_INVALID: i32 = 1;

/// What is wrong with an answer of the recovery service.
#[derive(Copy, Clone, Debug, PartialEq, Eq, Structural)]
pub enum SolverError {
    /// The service has failed with the given return value.
    Internal(i32),
    /// The service has handed over something that is no field element.
    Malformed,
}

/// The text in a buffer: the bytes before the first zero byte.
pub open spec fn text_of(buffer: Seq<u8>) -> Seq<u8>
    decreases buffer.len(),
{
    if buffer.len() == 0 || buffer[0] == 0 {
        Seq::empty()
    } else {
        seq![buffer[0]] + text_of(buffer.skip(1))
    }
}

/// The text in a buffer is the notation of a field element.
pub open spec fn holds_element(buffer: Seq<u8>) -> bool {
    is_hex(text_of(buffer)) && hex_value(text_of(buffer)) <= crate::field::P
}

/// The interface to the recovery of values from power sums.
pub struct Solver;

impl Solver {
    /// The first `count` powers of `x`: the encoding of a value in the
    /// exponential DC-net.
    pub fn powers(x: Fp, count: usize) -> (out: Vec<Fp>)
        requires
            x.wf(),
        ensures
            out@ == powers(x, count as nat),
            all_wf(out@),
    {
        let mut out: Vec<Fp> = Vec::new();
        let mut current: Fp = Fp::from_u127(1);
        let mut k: usize = 0;
        proof {
            Fp::lemma_with_repr(1);
            Fp::lemma_repr_injective(current, one());
        }
        while k < count
            invariant
                k <= count,
                x.wf(),
                current.wf(),
                current == power(x, k as nat),
                out@.len() == k,
                forall|j: int| 0 <= j < k ==> out@[j] == power(x, (j + 1) as nat),
                all_wf(out@),
            decreases count - k,
        {
            current = current.times(x);
            out.push(current);
            k += 1;
        }
        assert(out@ =~= powers(x, count as nat));
        out
    }

    /// The first `count` power sums of `values`.
    pub fn power_sums(values: &[Fp], count: usize) -> (out: Vec<Fp>)
        requires
            all_wf(values@),
        ensures
            out@ == power_sums(values@, count as nat),
            all_wf(out@),
    {
        let n: usize = values.len();
        // current@[i] is values[i] to the power of k
        let mut current: Vec<Fp> = Vec::new();
        let mut i: usize = 0;
        proof {
            Fp::lemma_with_repr(1);
        }
        while i < n
            invariant
                i <= n,
                current@.len() == i,
                forall|j: int| 0 <= j < i ==> current@[j] == one() && (#[trigger] current@[j]).wf(),
            decreases n - i,
        {
            let unit = Fp::from_u127(1);
            proof {
                Fp::lemma_with_repr(1);
                Fp::lemma_repr_injective(unit, one());
            }
            current.push(unit);
            i += 1;
        }
        let mut out: Vec<Fp> = Vec::new();
        let mut k: usize = 0;
        while k < count
            invariant
                k <= count,
                n == values@.len(),
                all_wf(values@),
                current@.len() == n,
                forall|j: int|
                    0 <= j < n ==> current@[j] == power(values@[j], k as nat) && (
                    #[trigger] current@[j]).wf(),
                out@.len() == k,
                forall|j: int| 0 <= j < k ==> out@[j] == power_sum(values@, n as nat, (j + 1) as nat),
                all_wf(out@),
            decreases count - k,
        {
            let mut sum: Fp = Fp::from_u127(0);
            proof {
                Fp::lemma_with_repr(0);
                Fp::lemma_repr_injective(sum, zero());
            }
            let mut i: usize = 0;
            while i < n
                invariant
                    i <= n,
                    n == values@.len(),
                    all_wf(values@),
                    current@.len() == n,
                    forall|j: int|
                        0 <= j < i ==> current@[j] == power(values@[j], (k + 1) as nat) && (
                        #[trigger] current@[j]).wf(),
                    forall|j: int|
                        i <= j < n ==> current@[j] == power(values@[j], k as nat) && (
                        #[trigger] current@[j]).wf(),
                    sum.wf(),
                    sum == power_sum(values@, i as nat, (k + 1) as nat),
                decreases n - i,
            {
                let next: Fp = current[i].times(values[i]);
                proof {
                    lemma_product_value(current@[i as int], values@[i as int]);
                    lemma_sum_value(sum, next);
                }
                current.set(i, next);
                sum = sum.plus(next);
                i += 1;
            }
            out.push(sum);
            k += 1;
        }
        assert(out@ =~= power_sums(values@, count as nat));
        out
    }

    /// Whether `values` has the power sums `sums`.
    pub fn is_solution(sums: &[Fp], values: &[Fp]) -> (r: bool)
        requires
            all_wf(sums@),
        ensures
            r == solves(sums@, values@),
    {
        if values.len() != sums.len() {
            return false;
        }
        let mut i: usize = 0;
        while i < values.len()
            invariant
                i <= values@.len(),
                forall|j: int| 0 <= j < i ==> (#[trigger] values@[j]).wf(),
            decreases values@.len() - i,
        {
            if !values[i].is_consistent() {
                return false;
            }
            i += 1;
        }
        let computed = Self::power_sums(values, sums.len());
        let mut k: usize = 0;
        while k < sums.len()
            invariant
                k <= sums@.len(),
                values@.len() == sums@.len(),
                all_wf(values@),
                all_wf(sums@),
                all_wf(computed@),
                computed@ == power_sums(values@, sums@.len()),
                forall|j: int|
                    0 <= j < k ==> (#[trigger] power_sum(
                        values@,
                        values@.len(),
                        (j + 1) as nat,
                    )).same(sums@[j]),
            decreases sums@.len() - k,
        {
            assert(computed@[k as int] == power_sum(values@, values@.len(), (k + 1) as nat));
            if !computed[k].equals(&sums[k]) {
                return false;
            }
            k += 1;
        }
        true
    }

    /// Whether `vector` is the encoding of a value: its first `k` powers.
    pub fn is_power_encoding(vector: &[Fp]) -> (r: bool)
        requires
            all_wf(vector@),
        ensures
            r == (forall|k: int|
                0 <= k < vector@.len() ==> (#[trigger] vector@[k]).same(
                    power(vector@[0], (k + 1) as nat),
                )),
    {
        if vector.len() == 0 {
            return true;
        }
        let expected = Self::powers(vector[0], vector.len());
        let mut k: usize = 0;
        while k < vector.len()
            invariant
                k <= vector@.len(),
                vector@.len() > 0,
                all_wf(vector@),
                all_wf(expected@),
                expected@ == powers(vector@[0], vector@.len()),
                forall|j: int|
                    0 <= j < k ==> (#[trigger] vector@[j]).same(
                        power(vector@[0], (j + 1) as nat),
                    ),
            decreases vector@.len() - k,
        {
            assert(expected@[k as int] == power(vector@[0], (k + 1) as nat));
            if !vector[k].equals(&expected[k]) {
                return false;
            }
            k += 1;
        }
        true
    }

    /// The text in a buffer.
    pub fn text(buffer: &[u8]) -> (text: &[u8])
        ensures
            text@ == text_of(buffer@),
    {
        let mut end: usize = 0;
        proof {
            assert(buffer@.skip(0) =~= buffer@);
            assert(buffer@.take(0) + text_of(buffer@) =~= text_of(buffer@));
        }
        while end < buffer.len() && buffer[end] != 0
            invariant
                end <= buffer@.len(),
                text_of(buffer@) == buffer@.take(end as int) + text_of(buffer@.skip(end as int)),
            decreases buffer@.len() - end,
        {
            proof {
                let rest = buffer@.skip(end as int);
                assert(rest[0] == buffer@[end as int]);
                assert(rest.skip(1) =~= buffer@.skip(end + 1));
                assert(buffer@.take(end as int) + seq![rest[0]] =~= buffer@.take(end + 1));
                assert(buffer@.take(end as int) + (seq![rest[0]] + text_of(rest.skip(1)))
                    =~= buffer@.take(end + 1) + text_of(buffer@.skip(end + 1)));
            }
            end += 1;
        }
        proof {
            let rest = buffer@.skip(end as int);
            assert(text_of(rest) =~= Seq::<u8>::empty());
            assert(buffer@.take(end as int) + Seq::<u8>::empty() =~= buffer@.take(end as int));
            assert(buffer@.subrange(0, end as int) =~= buffer@.take(end as int));
        }
        vstd::slice::slice_subrange(buffer, 0, end)
    }

    /// What is handed to the recovery service: the notation of the field
    /// size and the notations of the power sums.
    pub fn request(power_sums: &[Fp]) -> (arguments: (Vec<u8>, Vec<Vec<u8>>))
        ensures
            arguments.0@ == hex_digits(crate::field::P as nat),
            arguments.1@.len() == power_sums@.len(),
            forall|i: int|
                0 <= i < power_sums@.len() ==> (#[trigger] arguments.1@[i])@ == hex_digits(
                    power_sums@[i].canonical(),
                ),
    {
        let prime_hex = to_hex(Fp::prime());
        let mut power_sums_hex: Vec<Vec<u8>> = Vec::new();
        let mut i: usize = 0;
        while i < power_sums.len()
            invariant
                i <= power_sums@.len(),
                power_sums_hex@.len() == i,
                forall|j: int|
                    0 <= j < i ==> (#[trigger] power_sums_hex@[j])@ == hex_digits(
                        power_sums@[j].canonical(),
                    ),
            decreases power_sums@.len() - i,
        {
            power_sums_hex.push(to_hex(power_sums[i].to_u128()));
            i += 1;
        }
        (prime_hex, power_sums_hex)
    }

    /// What the recovery service has answered: the values in the buffers
    /// where it has handed over values, `None` where it says that no values
    /// have the power sums, and an error for every other return value and
    /// for a buffer that holds no field element.
    pub fn answer(ret: i32, buffers: &Vec<Vec<u8>>) -> (answer: Result<
        Option<Vec<Fp>>,
        SolverError,
    >)
        ensures
            ret == RET_INVALID ==> answer == Ok::<Option<Vec<Fp>>, SolverError>(None),
            ret != RET_INVALID && ret != RET_OK ==> answer == Err::<
                Option<Vec<Fp>>,
                SolverError,
            >(SolverError::Internal(ret)),
            ret == RET_OK ==> {
                if forall|i: int| 0 <= i < buffers@.len() ==> holds_element(#[trigger] buffers@[i]@) {
                    &&& answer matches Ok(Some(values))
                    &&& values@.len() == buffers@.len()
                    &&& all_wf(values@)
                    &&& forall|i: int|
                        0 <= i < buffers@.len() ==> (#[trigger] values@[i]).repr() == hex_value(
                            text_of(buffers@[i]@),
                        )
                } else {
                    answer == Err::<Option<Vec<Fp>>, SolverError>(SolverError::Malformed)
                }
            },
    {
        if ret == RET_INVALID {
            return Ok(None);
        }
        if ret != RET_OK {
            return Err(SolverError::Internal(ret));
        }
        let mut values: Vec<Fp> = Vec::new();
        let mut i: usize = 0;
        while i < buffers.len()
            invariant
                i <= buffers@.len(),
                ret == RET_OK,
                values@.len() == i,
                all_wf(values@),
                forall|j: int| 0 <= j < i ==> holds_element(#[trigger] buffers@[j]@),
                forall|j: int|
                    0 <= j < i ==> (#[trigger] values@[j]).repr() == hex_value(
                        text_of(buffers@[j]@),
                    ),
            decreases buffers@.len() - i,
        {
            let text = Self::text(buffers[i].as_slice());
            match from_hex(text) {
                Some(value) => {
                    if value > Fp::prime() {
                        assert(!holds_element(buffers@[i as int]@));
                        return Err(SolverError::Malformed);
                    }
                    values.push(Fp::from_u127(value));
                },
                None => {
                    assert(!holds_element(buffers@[i as int]@));
                    return Err(SolverError::Malformed);
                },
            }
            i += 1;
        }
        Ok(Some(values))
    }
}

} // verus!
