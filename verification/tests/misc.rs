use dicemix::field::{as_limbs, Fp, Reduce};
use dicemix::keys::{PublicKey, SecretKey};
use dicemix::messages::{Confirm, DcExponential, DcMain, Extension, Payload, Reveal};
use dicemix::state::history::RunHistory;
use dicemix::state::unmask::{commit, compute_pad, mask_exponential, open_exponential};
use dicemix::dc::fp::FpVec;
use dicemix::{ExtensionVariant, Options, Variant};

fn fp(x: u128) -> Fp {
    Fp::from_u127(x)
}

fn public(byte: u8) -> PublicKey {
    PublicKey::from_secret_key(&SecretKey::from_slice(&[byte; 32]).unwrap()).unwrap()
}

#[test]
fn options_follow_the_variant() {
    let plain = Options::new_simple(Variant::PlainEcdsa);
    assert_eq!(plain.variant(), Variant::PlainEcdsa);
    assert_eq!(plain.extension_variant(), ExtensionVariant::NoExtension);
    assert_eq!(plain.extension_variant(), Extension::NoExtension.variant());
    let shuffle = Options::new_simple(Variant::ValueShuffleElementsEcdsa);
    assert_eq!(shuffle.variant(), Variant::ValueShuffleElementsEcdsa);
    assert_eq!(shuffle.extension_variant(), ExtensionVariant::DcAddSecp256k1Scalar);
    assert_eq!(shuffle.extension_variant(), Extension::DcAddSecp256k1Scalar.variant());
}

#[test]
fn field_laws_on_chosen_values() {
    let p = Fp::prime();
    let samples = [0u128, 1, 2, 5, 1 << 64, (1 << 126) + 12345, p - 2, p - 1, p];
    for &x in &samples {
        let a = fp(x);
        assert_eq!(a + (-a), fp(0));
        assert_eq!(u128::from(a), x % p);
        assert_eq!(a.to_u128(), x % p);
        assert!(a.is_consistent());
        for &y in &samples {
            let b = fp(y);
            assert_eq!(a + b, b + a);
            assert_eq!(a * b, b * a);
            assert_eq!(a - b + b, a);
            assert_eq!(a.equals(&b), x % p == y % p);
            for &z in &samples {
                let c = fp(z);
                assert_eq!((a + b) + c, a + (b + c));
                assert_eq!(a * (b + c), a * b + a * c);
            }
        }
    }
    // conversion to and from the canonical integer is a fixed point
    for v in [0u128, 1, 77, 1 << 100, p - 1] {
        assert_eq!(u128::from(Fp::from_u127(v)), v);
    }
    assert_eq!(u128::from(Fp::from_u127(p)), 0);
    // any integer is reduced
    assert_eq!(Fp::new(5), fp(5));
    assert_eq!(Fp::new(p), fp(0));
    assert_eq!(Fp::new(p + 1), fp(1));
    assert_eq!(Fp::new(1 << 127), fp(1));
    assert_eq!(Fp::new(u128::MAX), fp(1));
    assert_eq!(Fp::new(u128::MAX - 1), fp(0));
    assert_eq!(Fp::from(p + 7), fp(7));
    assert!(Fp::new(u128::MAX).is_consistent());
    assert_eq!(u128::from(Fp::from_u128_discard_msb(u128::MAX)), 0);
    assert_eq!(u128::from(Fp::from_u128_discard_msb((1 << 127) + 5)), 5);
}

#[test]
fn reduction_folds_the_high_bits_back() {
    assert_eq!(as_limbs(0x0123456789abcdef_fedcba9876543210), (0x0123456789abcdef, 0xfedcba9876543210));
    assert_eq!(5u128.reduce_once(), 5);
    assert_eq!((1u128 << 127).reduce_once(), 1);
    assert_eq!(u128::MAX.reduce_once(), 1 << 127);
    assert_eq!((0u128, 7u128).reduce_once(), 7);
    assert_eq!((1u128, 0u128).reduce_once(), 2);
    assert_eq!((3u128, (1u128 << 127) + 9).reduce_once(), 16);
}

#[test]
fn histories_record_contributions_and_keys() {
    let mut history = RunHistory::new(3);
    assert!(history.consistent());
    assert!(history.dc_exponential().is_none() && history.dc_main().is_none());
    assert_eq!(history.revealed_key(1), None);
    let main = Payload::DcMain(DcMain {
        ok: true,
        dc_xor: vec![vec![1]],
        ke_pk: public(1),
        extension: Extension::NoExtension,
    });
    // a main contribution cannot be recorded before an exponential one
    assert!(!history.can_record(&main));
    let exponential = DcExponential { commitment: [1u8; 32], dc_exp: vec![fp(1)] };
    assert!(history.can_record(&Payload::DcExponential(exponential.clone())));
    history.record_payload(Payload::DcExponential(exponential.clone()));
    assert_eq!(history.dc_exponential(), &Some(exponential));
    assert!(history.can_record(&main));
    history.record_payload(main);
    assert!(history.dc_main().is_some());
    assert!(history.consistent());

    let first = Reveal { keys: vec![(2, [2u8; 32]), (0, [7u8; 32])] };
    assert!(history.accepts_reveal(&first));
    history.record_payload(Payload::Reveal(first));
    assert_eq!(history.revealed_key(2), Some([2u8; 32]));
    assert_eq!(history.revealed_key(0), Some([7u8; 32]));
    assert_eq!(history.revealed_key(1), None);
    assert_eq!(history.revealed_key(5), None);
    // a second key for a peer is not accepted, be it another or the same
    assert!(!history.accepts_reveal(&Reveal { keys: vec![(2, [3u8; 32])] }));
    assert!(!history.accepts_reveal(&Reveal { keys: vec![(1, [3u8; 32]), (0, [7u8; 32])] }));
    assert!(!history.accepts_reveal(&Reveal { keys: vec![(1, [3u8; 32]), (1, [3u8; 32])] }));
    assert!(history.accepts_reveal(&Reveal { keys: vec![(1, [3u8; 32])] }));
    assert!(history.accepts_reveal(&Reveal { keys: vec![] }));
    history.record_payload(Payload::Confirm(Confirm { data: vec![] }));
    assert!(history.consistent());
}

#[test]
fn an_honest_contribution_opens_to_the_powers_of_its_value() {
    let keys = Reveal { keys: vec![(1, [5u8; 32]), (2, [6u8; 32])] };
    let contribution = mask_exponential(fp(3), &keys, 4).unwrap();
    assert_ne!(contribution.dc_exp, vec![fp(3), fp(9), fp(27), fp(81)]);
    let mut history = RunHistory::new(4);
    history.record_payload(Payload::DcExponential(contribution.clone()));
    history.record_payload(Payload::Reveal(keys));
    let opened = open_exponential(&history, 4);
    assert_eq!(opened, FpVec::new(vec![fp(3), fp(9), fp(27), fp(81)]));
    let pad: FpVec = compute_pad(&history, 4, 4, 0);
    assert_eq!(commit(&pad), contribution.commitment);
    // the commitment binds the keys
    let mut other = RunHistory::new(4);
    other.record_payload(Payload::Reveal(Reveal { keys: vec![(1, [5u8; 32]), (2, [7u8; 32])] }));
    let other_pad: FpVec = compute_pad(&other, 4, 4, 0);
    assert_ne!(commit(&other_pad), contribution.commitment);
    // two keys for one peer make no contribution
    assert!(mask_exponential(fp(3), &Reveal { keys: vec![(1, [5u8; 32]), (1, [6u8; 32])] }, 4)
        .is_none());
}

#[test]
fn peers_hold_the_keys_of_the_current_and_the_next_run() {
    let mut peer = dicemix::peer::Peer::new(&public(1));
    assert_eq!(peer.ltvk(), &public(1));
    peer.push_kepk(public(2));
    peer.push_kepk(public(3));
    assert_eq!(peer.get_kepk(), &public(2));
    peer.shift_keys();
    assert_eq!(peer.get_kepk(), &public(3));

    let id = dicemix::PeerId([1u8; 32], [2u8; 32]);
    let mut peer = dicemix::state::peer::Peer::new(id, public(1), public(2), 3);
    assert_eq!(peer.ltvk(), &public(1));
    assert_eq!(peer.peer_id(), id);
    assert!(peer.history().consistent());
    assert_eq!(peer.pop_kepk(), public(2));
    peer.push_kepk(public(4));
    assert_eq!(peer.pop_kepk(), public(4));

    let peer = dicemix::state::Peer::new(id, public(9));
    assert_eq!(peer.ltvk(), &public(9));
    assert_eq!(peer.peer_id(), id);
}
