use dicemix::field::Fp;
use dicemix::solver::hex::{from_hex, to_hex};
use dicemix::solver::{Solver, SolverError, RET_INVALID, RET_OK};

fn fp(x: u128) -> Fp {
    Fp::from_u127(x)
}

#[test]
fn simple_cases() {
    let power_sums = vec![
        Fp::from_u127(0x384ae5480f49d67c51b83df1fff94e90),
        Fp::from_u127(0x6e9de51c5deca89883084cd992088c11),
        Fp::from_u127(0x38132da941235c87e3f33762aa488840),
        Fp::from_u127(0x75bc93bff8a8ce7b4fb23af15dbbaebc),
        Fp::from_u127(0x1f8abf68afa44bf42a0da59b4885d94c),
    ];
    let expected = vec![
        Fp::from_u127(0x0b1b5dcbb65d530c4a19d3cfe5033887),
        Fp::from_u127(0x27d9803748f6be6875282823a6ac5d5a),
        Fp::from_u127(0x3a3112db6e48449711521bbc42944db3),
        Fp::from_u127(0x52027185cadce683709dfb288e7de45b),
        Fp::from_u127(0x792282e3d6d099ed10862b19a337869f),
    ];

    // the expected values are the values with these power sums
    assert_eq!(Solver::power_sums(&expected, 5), power_sums);
    assert!(Solver::is_solution(&power_sums, &expected));
    let mut result = expected.clone();
    result.reverse();
    assert!(Solver::is_solution(&power_sums, &result));
    result[0] = result[0] + Fp::from_u127(1);
    assert!(!Solver::is_solution(&power_sums, &result));
}

#[test]
fn zero() {
    let power_sums = vec![Fp::from_u127(0), Fp::from_u127(0), Fp::from_u127(0)];

    assert!(Solver::is_solution(&power_sums, &power_sums));
    assert_eq!(Solver::power_sums(&power_sums, 3), power_sums);
    // both representations of zero are zero
    let p = Fp::prime();
    assert!(Solver::is_solution(&power_sums, &[fp(p), fp(0), fp(p)]));
}

#[test]
fn power_sums_are_sums_of_powers() {
    let values = [fp(2), fp(3), fp(5)];
    assert_eq!(Solver::power_sums(&values, 4), vec![fp(10), fp(38), fp(160), fp(722)]);
    assert_eq!(Solver::power_sums(&values, 0), vec![]);
    assert_eq!(Solver::power_sums(&[], 2), vec![fp(0), fp(0)]);
    assert_eq!(Solver::powers(fp(3), 4), vec![fp(3), fp(9), fp(27), fp(81)]);
    let p = Fp::prime();
    // powers wrap around the field size
    assert_eq!(Solver::powers(fp(p - 1), 3), vec![fp(p - 1), fp(1), fp(p - 1)]);
    assert_eq!(Solver::power_sums(&[fp(p - 1), fp(1)], 2), vec![fp(0), fp(2)]);
}

#[test]
fn power_sums_do_not_depend_on_the_order() {
    let a = [fp(17), fp(4), fp(1 << 100), fp(4)];
    let b = [fp(4), fp(1 << 100), fp(4), fp(17)];
    assert_eq!(Solver::power_sums(&a, 4), Solver::power_sums(&b, 4));
    assert!(Solver::is_solution(&Solver::power_sums(&a, 4), &b));
    assert!(!Solver::is_solution(&Solver::power_sums(&a, 4), &b[..3]));
    assert!(!Solver::is_solution(&Solver::power_sums(&a, 4), &[fp(4), fp(4), fp(4), fp(17)]));
}

#[test]
fn encodings_are_sequences_of_powers() {
    assert!(Solver::is_power_encoding(&[]));
    assert!(Solver::is_power_encoding(&[fp(7)]));
    assert!(Solver::is_power_encoding(&[fp(7), fp(49), fp(343)]));
    assert!(!Solver::is_power_encoding(&[fp(7), fp(49), fp(344)]));
    assert!(!Solver::is_power_encoding(&[fp(7), fp(48)]));
}

#[test]
fn hexadecimal_notation() {
    assert_eq!(to_hex(0), b"0");
    assert_eq!(to_hex(9), b"9");
    assert_eq!(to_hex(10), b"A");
    assert_eq!(to_hex(255), b"FF");
    assert_eq!(to_hex(0x1234_abcd), b"1234ABCD");
    assert_eq!(to_hex(u128::MAX), b"FFFFFFFFFFFFFFFFFFFFFFFFFFFFFFFF");
    assert_eq!(to_hex(Fp::prime()), format!("{:X}", Fp::prime()).as_bytes());
    assert_eq!(from_hex(b"0"), Some(0));
    assert_eq!(from_hex(b"ff"), Some(255));
    assert_eq!(from_hex(b"Ff"), Some(255));
    assert_eq!(from_hex(b"0000000000000000000000000000000000000001"), Some(1));
    assert_eq!(from_hex(b"FFFFFFFFFFFFFFFFFFFFFFFFFFFFFFFF"), Some(u128::MAX));
    assert_eq!(from_hex(b"100000000000000000000000000000000"), None);
    assert_eq!(from_hex(b""), None);
    assert_eq!(from_hex(b"12G4"), None);
    assert_eq!(from_hex(b" 12"), None);
    assert_eq!(from_hex(b"+12"), None);
    for x in [0u128, 1, 15, 16, 4095, 1 << 64, (1 << 127) - 1, u128::MAX] {
        assert_eq!(from_hex(&to_hex(x)), Some(x));
    }
}

#[test]
fn requests_hold_the_field_size_and_the_power_sums() {
    let (prime, sums) = Solver::request(&[fp(0), fp(255), fp(Fp::prime())]);
    assert_eq!(prime, b"7FFFFFFFFFFFFFFFFFFFFFFFFFFFFFFF");
    assert_eq!(sums, vec![b"0".to_vec(), b"FF".to_vec(), b"0".to_vec()]);
}

#[test]
fn answers_are_read_from_the_buffers() {
    let mut one = b"1F".to_vec();
    one.resize(34, 0);
    let mut two = b"7FFFFFFFFFFFFFFFFFFFFFFFFFFFFFFE".to_vec();
    two.resize(34, 0);
    let buffers = vec![one.clone(), two];
    assert_eq!(Solver::answer(RET_OK, &buffers), Ok(Some(vec![fp(31), fp(Fp::prime() - 1)])));
    assert_eq!(Solver::answer(RET_INVALID, &buffers), Ok(None));
    assert_eq!(Solver::answer(2, &buffers), Err(SolverError::Internal(2)));
    assert_eq!(Solver::answer(-1, &buffers), Err(SolverError::Internal(-1)));
    assert_eq!(Solver::answer(RET_OK, &vec![]), Ok(Some(vec![])));
    // a buffer without text, with other characters or with too large a number
    assert_eq!(Solver::answer(RET_OK, &vec![one.clone(), vec![0; 34]]), Err(SolverError::Malformed));
    assert_eq!(Solver::answer(RET_OK, &vec![b"xyz\0".to_vec()]), Err(SolverError::Malformed));
    assert_eq!(
        Solver::answer(RET_OK, &vec![b"80000000000000000000000000000000\0".to_vec()]),
        Err(SolverError::Malformed)
    );
    assert_eq!(Solver::text(b"AB\0CD\0"), b"AB");
    assert_eq!(Solver::text(b"ABCD"), b"ABCD");
    assert_eq!(Solver::text(b"\0ABCD"), b"");
}
