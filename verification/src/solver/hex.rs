//! Integers as hexadecimal digits, the form in which values are exchanged
//! with the recovery service.

use vstd::prelude::*;

verus! {

/// The upper-case hexadecimal digit of a value below 16.
pub open spec fn digit_of(value: nat) -> u8 {
    if value < 10 {
        (48 + value) as u8
    } else {
        (55 + value) as u8
    }
}

/// The value of a hexadecimal digit of either case; 16 for any other
/// character.
pub open spec fn digit_value(digit: u8) -> nat {
    if 48 <= digit <= 57 {
        (digit - 48) as nat
    } else if 65 <= digit <= 70 {
        (digit - 55) as nat
    } else if 97 <= digit <= 102 {
        (digit - 87) as nat
    } else {
        16
    }
}

/// The digits are hexadecimal digits, and there is at least one.
pub open spec fn is_hex(digits: Seq<u8>) -> bool {
    digits.len() > 0 && forall|i: int| 0 <= i < digits.len() ==> digit_value(#[trigger] digits[i]) < 16
}

/// The number that the digits are the hexadecimal notation of.
pub open spec fn hex_value(digits: Seq<u8>) -> nat
    decreases digits.len(),
{
    if digits.len() == 0 {
        0
    } else {
        hex_value(digits.drop_last()) * 16 + digit_value(digits.last())
    }
}

/// The hexadecimal notation of a number in upper case, without leading
/// zeros.
pub open spec fn hex_digits(value: nat) -> Seq<u8>
    decreases value,
{
    if value < 16 {
        seq![digit_of(value)]
    } else {
        hex_digits(value / 16).push(digit_of(value % 16))
    }
}

/// The notation of a number consists of hexadecimal digits and stands for
/// the number.
pub proof fn lemma_hex_round_trip(value: nat)
    ensures
        is_hex(hex_digits(value)),
        hex_value(hex_digits(value)) == value,
    decreases value,
{
    let digits = hex_digits(value);
    if value < 16 {
        assert(digits.drop_last() =~= Seq::<u8>::empty());
        assert(digits.last() == digit_of(value));
        assert(hex_value(digits.drop_last()) == 0);
    } else {
        lemma_hex_round_trip(value / 16);
        let front = hex_digits(value / 16);
        assert(digits.drop_last() =~= front);
        assert(digits.last() == digit_of(value % 16));
        assert forall|i: int| 0 <= i < digits.len() implies digit_value(#[trigger] digits[i])
            < 16 by {
            if i < front.len() {
                assert(digits[i] == front[i]);
            }
        }
    }
}

/// The digits before a position stand for no more than all digits.
pub proof fn lemma_hex_value_prefix(digits: Seq<u8>, k: int)
    requires
        0 <= k <= digits.len(),
    ensures
        hex_value(digits.take(k)) <= hex_value(digits),
    decreases digits.len() - k,
{
    if k == digits.len() {
        assert(digits.take(k) =~= digits);
    } else {
        lemma_hex_value_prefix(digits, k + 1);
        assert(digits.take(k + 1).drop_last() =~= digits.take(k));
    }
}

/// The value of a hexadecimal digit of either case.
pub fn value_of_digit(digit: u8) -> (value: Option<u8>)
    ensures
        value is Some == (digit_value(digit) < 16),
        value is Some ==> value->0 == digit_value(digit),
{
    if 48 <= digit && digit <= 57 {
        Some(digit - 48)
    } else if 65 <= digit && digit <= 70 {
        Some(digit - 55)
    } else if 97 <= digit && digit <= 102 {
        Some(digit - 87)
    } else {
        None
    }
}

/// The hexadecimal notation of `value` in upper case, without leading
/// zeros.
pub fn to_hex(value: u128) -> (digits: Vec<u8>)
    ensures
        digits@ == hex_digits(value as nat),
{
    // the digits from the last to the first
    let mut reversed: Vec<u8> = Vec::new();
    let mut rest: u128 = value;
    loop
        invariant_except_break
            hex_digits(value as nat) == hex_digits(rest as nat) + reversed@.reverse(),
        ensures
            rest < 16,
            hex_digits(value as nat) == seq![digit_of(rest as nat)] + reversed@.reverse(),
        decreases rest,
    {
        if rest < 16 {
            break ;
        }
        let low: u8 = (rest % 16) as u8;
        let digit: u8 = if low < 10 {
            48 + low
        } else {
            55 + low
        };
        proof {
            let before = reversed@;
            let after = before.push(digit);
            assert(after.reverse() =~= seq![digit] + before.reverse());
            assert(hex_digits(rest as nat) == hex_digits((rest / 16) as nat).push(digit));
            assert(hex_digits((rest / 16) as nat).push(digit) + before.reverse() =~= hex_digits(
                (rest / 16) as nat,
            ) + after.reverse());
        }
        reversed.push(digit);
        rest = rest / 16;
    }
    let low: u8 = rest as u8;
    let first: u8 = if low < 10 {
        48 + low
    } else {
        55 + low
    };
    let mut digits: Vec<u8> = Vec::new();
    digits.push(first);
    let n: usize = reversed.len();
    let mut i: usize = 0;
    while i < n
        invariant
            i <= n,
            n == reversed@.len(),
            digits@ == seq![first] + reversed@.reverse().take(i as int),
        decreases n - i,
    {
        digits.push(reversed[n - 1 - i]);
        assert(digits@ =~= seq![first] + reversed@.reverse().take(i + 1));
        i += 1;
    }
    assert(reversed@.reverse().take(n as int) =~= reversed@.reverse());
    digits
}

/// The number that `digits` are the hexadecimal notation of: `None` unless
/// they are hexadecimal digits, at least one, of a number that fits 128
/// bits.
pub fn from_hex(digits: &[u8]) -> (value: Option<u128>)
    ensures
        value is Some == (is_hex(digits@) && hex_value(digits@) <= u128::MAX),
        value is Some ==> value->0 == hex_value(digits@),
{
    if digits.len() == 0 {
        return None;
    }
    let mut value: u128 = 0;
    let mut i: usize = 0;
    assert(digits@.take(0) =~= Seq::<u8>::empty());
    while i < digits.len()
        invariant
            i <= digits@.len(),
            digits@.len() > 0,
            value == hex_value(digits@.take(i as int)),
            forall|j: int| 0 <= j < i ==> digit_value(#[trigger] digits@[j]) < 16,
        decreases digits@.len() - i,
    {
        proof {
            assert(digits@.take(i + 1).drop_last() =~= digits@.take(i as int));
            assert(digits@.take(i + 1).last() == digits@[i as int]);
            lemma_hex_value_prefix(digits@, i + 1);
        }
        let digit: u8 = match value_of_digit(digits[i]) {
            Some(digit) => digit,
            None => {
                return None;
            },
        };
        if value > (u128::MAX - digit as u128) / 16 {
            return None;
        }
        value = value * 16 + digit as u128;
        i += 1;
    }
    assert(digits@.take(digits@.len() as int) =~= digits@);
    Some(value)
}

} // verus!
