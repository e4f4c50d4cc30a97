use dicemix::dc::fp::FpVec;
use dicemix::dc::xor::XorVec;
use dicemix::dc::{derive_pad, unmask, DcGroup, Randomize};
use dicemix::field::Fp;
use dicemix::rng::DiceMixRng;

fn xv(bytes: &[u8]) -> XorVec<u8> {
    XorVec::new(bytes.to_vec())
}

fn fv(values: &[u128]) -> FpVec {
    FpVec::new(values.iter().map(|v| Fp::from_u127(*v)).collect())
}

#[test]
fn xor_combines_element_by_element() {
    assert_eq!(xv(&[0x0f, 0xf0, 0xaa]) ^ xv(&[0xff, 0xff, 0x55]), xv(&[0xf0, 0x0f, 0xff]));
    assert_eq!(xv(&[1, 2, 3]) + xv(&[3, 2, 1]), xv(&[2, 0, 2]));
    assert_eq!(xv(&[1, 2, 3]) - xv(&[3, 2, 1]), xv(&[2, 0, 2]));
    assert_eq!(xv(&[]) ^ xv(&[]), xv(&[]));
    assert_eq!(xv(&[1, 2, 3]).combine(xv(&[3, 2, 1])), xv(&[2, 0, 2]));
}

#[test]
fn xor_assignments_change_the_left_side() {
    let mut v = xv(&[1, 2, 3]);
    v ^= xv(&[1, 1, 1]);
    assert_eq!(v, xv(&[0, 3, 2]));
    v += xv(&[0, 3, 0]);
    assert_eq!(v, xv(&[0, 0, 2]));
    v -= xv(&[7, 7, 7]);
    assert_eq!(v, xv(&[7, 7, 5]));
}

#[test]
fn xor_is_commutative_and_every_vector_is_its_own_inverse() {
    let v1 = [0x12u8, 0x34, 0x56, 0x78];
    let v2 = [0xffu8, 0x00, 0x0f, 0xf0];
    assert_eq!(xv(&v1) ^ xv(&v2), xv(&v2) ^ xv(&v1));
    assert_eq!(xv(&v1) ^ xv(&v1), xv(&[0, 0, 0, 0]));
    assert!((xv(&v1) ^ xv(&v1)).is_zero());
    assert!(!xv(&v1).is_zero());
    assert_eq!(-xv(&v1), xv(&v1));
    assert_eq!(xv(&v1).invert(), xv(&v1));
    assert_eq!((xv(&v1) ^ xv(&v2)) ^ xv(&v2), xv(&v1));
    assert_eq!(unmask(xv(&v1).combine(xv(&v2)), xv(&v2)), xv(&v1));
    assert_eq!(XorVec::<u8>::zero(3), xv(&[0, 0, 0]));
    assert_eq!(xv(&v1).len(), 4);
    assert_eq!(xv(&v1).as_slice(), &v1);
    assert_eq!(xv(&v1).into_inner(), v1.to_vec());
    assert_eq!(XorVec::from_slice(&v1), xv(&v1));
}

#[test]
fn field_vectors_add_element_by_element() {
    let p = Fp::prime();
    assert_eq!(fv(&[1, 2, p - 1]).combine(fv(&[5, p - 2, 3])), fv(&[6, 0, 2]));
    assert_eq!(fv(&[0, 1, p - 1]).invert(), fv(&[0, p - 1, 1]));
    assert_eq!(unmask(fv(&[7, 8]).combine(fv(&[100, p - 5])), fv(&[100, p - 5])), fv(&[7, 8]));
    assert_eq!(FpVec::zero(2), fv(&[0, 0]));
    assert_eq!(fv(&[4, 5]).duplicate(), fv(&[4, 5]));
    assert!(fv(&[4, 5]).is_consistent());
    assert_eq!(fv(&[4, 5]).len(), 2);
}

#[test]
fn the_generator_yields_the_chacha20_key_stream() {
    // the key stream of the all-zero key and stream 0, from its second word on
    let mut rng = DiceMixRng::new(&[0u8; 32]);
    let mut bytes = vec![0u8; 12];
    rng.fill_bytes(&mut bytes);
    assert_eq!(bytes, [0xa0, 0xf1, 0x3d, 0x90, 0x40, 0x5d, 0x6a, 0xe5, 0x53, 0x86, 0xbd, 0x28]);
    let mut rng = DiceMixRng::new(&[0u8; 32]);
    assert_eq!(rng.next_u32(), 0x903df1a0);
    assert_eq!(rng.next_u64(), 0x28bd8653_e56a5d40);
    let mut rng = DiceMixRng::new(&[0u8; 32]);
    assert_eq!(rng.next_u128() as u32, 0x903df1a0);
}

#[test]
fn reads_continue_where_the_last_read_ended() {
    let mut whole = DiceMixRng::new(&[7u8; 32]);
    let all = whole.read(24);
    let mut parts = DiceMixRng::new(&[7u8; 32]);
    let first = parts.read(8);
    // a read ends at a word boundary: three bytes use up a whole word
    let second = parts.read(3);
    let third = parts.read(12);
    assert_eq!(first, &all[..8]);
    assert_eq!(second, &all[8..11]);
    assert_eq!(third, &all[12..24]);
    let mut buffer = vec![0u8; 5];
    assert_eq!(parts.try_fill_bytes(&mut buffer), Ok(()));
}

#[test]
fn rounds_and_keys_select_different_streams() {
    let mut a = DiceMixRng::new(&[7u8; 32]);
    let mut b = DiceMixRng::new(&[7u8; 32]);
    b.prepare_round(1);
    let mut c = DiceMixRng::new(&[8u8; 32]);
    let (x, y, z) = (a.read(16), b.read(16), c.read(16));
    assert_ne!(x, y);
    assert_ne!(x, z);
    // preparing a round again starts the round again
    b.prepare_round(0);
    assert_eq!(b.read(16), x);
}

#[test]
fn randomizing_keeps_the_shape() {
    let mut rng = DiceMixRng::new(&[1u8; 32]);
    let mut v = xv(&[0; 10]);
    v.randomize(&mut rng);
    assert_eq!(v.len(), 10);
    assert!(!v.is_zero());
    // every byte is the low byte of one word of the stream
    let mut words = DiceMixRng::new(&[1u8; 32]);
    let expected: Vec<u8> = (0..10).map(|_| words.next_u32() as u8).collect();
    assert_eq!(v.as_slice(), &expected[..]);

    let mut rng = DiceMixRng::new(&[1u8; 32]);
    let mut f = fv(&[0, 0, 0]);
    f.randomize(&mut rng);
    assert_eq!(f.len(), 3);
    assert!(f.is_consistent());
    let mut words = DiceMixRng::new(&[1u8; 32]);
    let expected: Vec<Fp> =
        (0..3).map(|_| Fp::from_u128_discard_msb(words.next_u128())).collect();
    assert_eq!(f.as_slice(), &expected[..]);

    let mut rng = DiceMixRng::new(&[1u8; 32]);
    let mut nested: Vec<Vec<u8>> = vec![vec![0; 2], vec![], vec![0; 3]];
    nested.randomize(&mut rng);
    assert_eq!(nested.iter().map(|v| v.len()).collect::<Vec<_>>(), vec![2, 0, 3]);
    let flat: Vec<u8> = nested.concat();
    assert_eq!(flat, &v.as_slice()[..5]);
}

#[test]
fn pads_depend_on_key_round_and_length_alone() {
    let a: XorVec<u8> = derive_pad(6, &[3u8; 32], 1);
    let b: XorVec<u8> = derive_pad(6, &[3u8; 32], 1);
    let c: XorVec<u8> = derive_pad(6, &[3u8; 32], 2);
    let d: XorVec<u8> = derive_pad(6, &[4u8; 32], 1);
    let e: XorVec<u8> = derive_pad(4, &[3u8; 32], 1);
    assert_eq!(a, b);
    assert_ne!(a, c);
    assert_ne!(a, d);
    assert_eq!(e.as_slice(), &a.as_slice()[..4]);
    let f: FpVec = derive_pad(3, &[3u8; 32], 0);
    let g: FpVec = derive_pad(3, &[3u8; 32], 0);
    assert_eq!(f, g);
    assert!(f.is_consistent());
}
