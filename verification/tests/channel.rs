use dicemix::field::Fp;
use dicemix::io::{compute_signed_digest, seal, IncomingPayload, ReadAuthenticatedPayloads};
use dicemix::keys::{PublicKey, SecretKey};
use dicemix::messages::{
    Blame, Confirm, DcExponential, DcMain, Extension, Header, KeyExchange, Message, Payload,
    PayloadKind, Reveal,
};

fn secret(byte: u8) -> SecretKey {
    SecretKey::from_slice(&[byte; 32]).unwrap()
}

fn public(byte: u8) -> PublicKey {
    PublicKey::from_secret_key(&secret(byte)).unwrap()
}

fn frame(session: [u8; 32], peer: u32, seq: u32, payload: Payload, signer: &SecretKey) -> Vec<u8> {
    let message = Message {
        header: Header { session_id: session, peer_index: peer, sequence_num: seq },
        payload,
    };
    seal(&message, signer).unwrap()
}

fn confirm(data: &[u8]) -> Payload {
    Payload::Confirm(Confirm { data: data.to_vec() })
}

fn channel() -> ReadAuthenticatedPayloads {
    ReadAuthenticatedPayloads::new([7u8; 32], vec![public(1), public(2), public(3)])
}

#[test]
fn accepts_a_well_formed_frame_and_advances_the_counter() {
    let mut ch = channel();
    assert_eq!(ch.expected_sequence_num(1), Some(0));
    let f = frame([7u8; 32], 1, 0, confirm(b"abc"), &secret(2));
    assert_eq!(ch.authenticate(1, &f), IncomingPayload::Valid(confirm(b"abc")));
    assert_eq!(ch.expected_sequence_num(1), Some(1));
    assert_eq!(ch.expected_sequence_num(0), Some(0));
    assert_eq!(ch.expected_sequence_num(2), Some(0));
    assert_eq!(ch.expected_sequence_num(3), None);
}

#[test]
fn rejects_a_wrong_sequence_number_without_advancing() {
    let mut ch = channel();
    let f = frame([7u8; 32], 1, 5, confirm(b"abc"), &secret(2));
    assert_eq!(ch.authenticate(1, &f), IncomingPayload::Invalid);
    assert_eq!(ch.expected_sequence_num(1), Some(0));
}

#[test]
fn rejects_a_replayed_frame() {
    let mut ch = channel();
    let f = frame([7u8; 32], 0, 0, confirm(b"once"), &secret(1));
    assert_eq!(ch.authenticate(0, &f), IncomingPayload::Valid(confirm(b"once")));
    assert_eq!(ch.authenticate(0, &f), IncomingPayload::Invalid);
    assert_eq!(ch.expected_sequence_num(0), Some(1));
    let g = frame([7u8; 32], 0, 1, confirm(b"twice"), &secret(1));
    assert_eq!(ch.authenticate(0, &g), IncomingPayload::Valid(confirm(b"twice")));
    assert_eq!(ch.expected_sequence_num(0), Some(2));
}

#[test]
fn rejects_a_frame_signed_by_another_peer() {
    let mut ch = channel();
    let f = frame([7u8; 32], 1, 0, confirm(b"abc"), &secret(3));
    assert_eq!(ch.authenticate(1, &f), IncomingPayload::Invalid);
    assert_eq!(ch.expected_sequence_num(1), Some(0));
}

#[test]
fn rejects_a_frame_delivered_under_another_index() {
    let mut ch = channel();
    let f = frame([7u8; 32], 1, 0, confirm(b"abc"), &secret(2));
    assert_eq!(ch.authenticate(2, &f), IncomingPayload::Invalid);
    assert_eq!(ch.authenticate(7, &f), IncomingPayload::Invalid);
}

#[test]
fn rejects_another_session() {
    let mut ch = channel();
    let f = frame([8u8; 32], 1, 0, confirm(b"abc"), &secret(2));
    assert_eq!(ch.authenticate(1, &f), IncomingPayload::Invalid);
}

#[test]
fn rejects_short_and_malformed_frames() {
    let mut ch = channel();
    assert_eq!(ch.authenticate(1, &[]), IncomingPayload::Invalid);
    assert_eq!(ch.authenticate(1, &[0u8; 63]), IncomingPayload::Invalid);
    assert_eq!(ch.authenticate(1, &[0u8; 64]), IncomingPayload::Invalid);
    assert_eq!(ch.authenticate(1, &[0u8; 200]), IncomingPayload::Invalid);
    let mut f = frame([7u8; 32], 1, 0, confirm(b"abc"), &secret(2));
    let last = f.len() - 1;
    f[last] ^= 1;
    assert_eq!(ch.authenticate(1, &f), IncomingPayload::Invalid);
    let mut g = frame([7u8; 32], 1, 0, confirm(b"abc"), &secret(2));
    g[50] ^= 1;
    assert_eq!(ch.authenticate(1, &g), IncomingPayload::Invalid);
    assert_eq!(ch.expected_sequence_num(1), Some(0));
}

#[test]
fn rejects_an_excluded_peer() {
    let mut ch = channel();
    ch.exclude(1);
    let f = frame([7u8; 32], 1, 0, confirm(b"abc"), &secret(2));
    assert_eq!(ch.authenticate(1, &f), IncomingPayload::Invalid);
    let g = frame([7u8; 32], 2, 0, confirm(b"abc"), &secret(3));
    assert_eq!(ch.authenticate(2, &g), IncomingPayload::Valid(confirm(b"abc")));
}

#[test]
fn signed_digest_is_the_prefixed_blake2s_digest() {
    let digest = compute_signed_digest(b"");
    let expected: [u8; 32] =
        <blake2::Blake2s256 as blake2::Digest>::digest(b"DICEMIX_SIGNED_MESSAGE__________").into();
    assert_eq!(digest, expected);
    assert_ne!(compute_signed_digest(b"a"), digest);
}

#[test]
fn roundtrip_keyexchange() {
    let slice: [u8; 32] = [0x4f; 32];
    let sk = SecretKey::from_slice(&slice).unwrap();
    let ke_pk = PublicKey::from_secret_key(&sk).unwrap();

    let payload = Payload::KeyExchange(KeyExchange { ke_pk });

    roundtrip(payload);
}

fn roundtrip(payload1: Payload) {
    let message1 = Message {
        header: Header { session_id: [3u8; 32], peer_index: 4, sequence_num: 5 },
        payload: payload1,
    };
    let ser = message1.encode();
    let message2 = Message::decode(&ser).unwrap();
    assert_eq!(message1, message2);
    let mut longer = ser.clone();
    longer.push(0);
    assert_eq!(Message::decode(&longer), None);
    assert_eq!(Message::decode(&ser[..ser.len() - 1]), None);
}

#[test]
fn roundtrip_all_payloads() {
    roundtrip(Payload::DcExponential(DcExponential {
        commitment: [9u8; 32],
        dc_exp: vec![Fp::from_u127(0), Fp::from_u127(1), Fp::from_u127(Fp::prime() - 1)],
    }));
    roundtrip(Payload::DcMain(DcMain {
        ok: true,
        dc_xor: vec![vec![], vec![1, 2, 3], vec![0xff; 40]],
        ke_pk: public(9),
        extension: Extension::DcAddSecp256k1Scalar,
    }));
    roundtrip(Payload::DcMain(DcMain {
        ok: false,
        dc_xor: vec![],
        ke_pk: public(10),
        extension: Extension::NoExtension,
    }));
    roundtrip(Payload::Blame(Blame { ke_sk: secret(5) }));
    roundtrip(Payload::Confirm(Confirm { data: vec![] }));
    roundtrip(Payload::Confirm(Confirm { data: vec![1, 2, 3, 4, 5] }));
    roundtrip(Payload::Reveal(Reveal { keys: vec![] }));
    roundtrip(Payload::Reveal(Reveal { keys: vec![(0, [1u8; 32]), (700, [2u8; 32])] }));
}

#[test]
fn layout_is_that_of_bincode() {
    let session = [3u8; 32];
    let header = bincode::serialize(&(session, 4u32, 5u32)).unwrap();

    let exp = Message {
        header: Header { session_id: session, peer_index: 4, sequence_num: 5 },
        payload: Payload::DcExponential(DcExponential {
            commitment: [9u8; 32],
            dc_exp: vec![Fp::from_u127(17), Fp::from_u127(1 << 100)],
        }),
    };
    let mut expected = header.clone();
    expected.extend(bincode::serialize(&(1u32, [9u8; 32], vec![17u128, 1u128 << 100])).unwrap());
    assert_eq!(exp.encode(), expected);

    let main = Message {
        header: Header { session_id: session, peer_index: 4, sequence_num: 5 },
        payload: Payload::DcMain(DcMain {
            ok: true,
            dc_xor: vec![vec![1, 2], vec![], vec![3]],
            ke_pk: public(9),
            extension: Extension::DcAddSecp256k1Scalar,
        }),
    };
    let mut expected = header.clone();
    expected
        .extend(bincode::serialize(&(2u32, true, vec![vec![1u8, 2], vec![], vec![3]])).unwrap());
    expected.extend_from_slice(&public(9).serialize());
    expected.extend(bincode::serialize(&1u32).unwrap());
    assert_eq!(main.encode(), expected);

    let reveal = Message {
        header: Header { session_id: session, peer_index: 4, sequence_num: 5 },
        payload: Payload::Reveal(Reveal { keys: vec![(2, [1u8; 32]), (0, [5u8; 32])] }),
    };
    let mut expected = header.clone();
    expected.extend(bincode::serialize(&(5u32, vec![(2u32, [1u8; 32]), (0u32, [5u8; 32])])).unwrap());
    assert_eq!(reveal.encode(), expected);

    let confirm = Message {
        header: Header { session_id: session, peer_index: 4, sequence_num: 5 },
        payload: Payload::Confirm(Confirm { data: vec![7, 8, 9] }),
    };
    let mut expected = header.clone();
    expected.extend(bincode::serialize(&(4u32, vec![7u8, 8, 9])).unwrap());
    assert_eq!(confirm.encode(), expected);
}

#[test]
fn decode_rejects_ill_formed_fields() {
    let good = Message {
        header: Header { session_id: [0u8; 32], peer_index: 0, sequence_num: 0 },
        payload: Payload::DcExponential(DcExponential {
            commitment: [0u8; 32],
            dc_exp: vec![Fp::from_u127(5)],
        }),
    };
    let bytes = good.encode();
    assert!(Message::decode(&bytes).is_some());
    // an element that is not below the field size
    let mut bad = bytes.clone();
    let n = bad.len();
    for b in &mut bad[n - 16..] {
        *b = 0xff;
    }
    assert_eq!(Message::decode(&bad), None);
    // an unknown variant
    let mut bad = bytes.clone();
    bad[40] = 6;
    assert_eq!(Message::decode(&bad), None);
    // a length that the bytes do not cover
    let mut bad = bytes.clone();
    bad[40 + 4 + 32] = 2;
    assert_eq!(Message::decode(&bad), None);
    // a secret key that the curve does not accept
    let blame = Message {
        header: Header { session_id: [0u8; 32], peer_index: 0, sequence_num: 0 },
        payload: Payload::Blame(Blame { ke_sk: secret(1) }),
    };
    let mut bad = blame.encode();
    for b in &mut bad[44..] {
        *b = 0;
    }
    assert_eq!(Message::decode(&bad), None);
    // a public key that is no curve point
    let ke = Message {
        header: Header { session_id: [0u8; 32], peer_index: 0, sequence_num: 0 },
        payload: Payload::KeyExchange(KeyExchange { ke_pk: public(1) }),
    };
    let mut bad = ke.encode();
    bad[44] = 9;
    assert_eq!(Message::decode(&bad), None);
}

#[test]
fn keys_are_validated() {
    assert!(SecretKey::from_slice(&[0u8; 32]).is_none());
    assert!(SecretKey::from_slice(&[0xffu8; 32]).is_none());
    assert!(SecretKey::from_slice(&[1u8; 31]).is_none());
    assert!(SecretKey::from_slice(&[1u8; 32]).is_some());
    assert!(PublicKey::from_slice(&[0u8; 33]).is_none());
    assert!(PublicKey::from_slice(&[0u8; 10]).is_none());
    let key = public(1);
    assert_eq!(PublicKey::from_slice(&key.serialize()), Some(key));
    assert!(key.same(&public(1)));
    assert!(!key.same(&public(2)));
    let digest = [5u8; 32];
    let signature = secret(1).sign(&digest).unwrap();
    assert!(key.verifies(&digest, &signature));
    assert!(!key.verifies(&[6u8; 32], &signature));
    assert!(!public(2).verifies(&digest, &signature));
    assert!(!key.verifies(&digest, &signature[..63]));
}

#[test]
fn a_frame_is_the_message_and_its_signature() {
    let message = Message {
        header: Header { session_id: [7u8; 32], peer_index: 1, sequence_num: 0 },
        payload: confirm(b"abc"),
    };
    let sealed = seal(&message, &secret(2)).unwrap();
    let encoded = message.encode();
    assert_eq!(&sealed[..encoded.len()], &encoded[..]);
    let signature = secret(2).sign(&compute_signed_digest(&encoded)).unwrap();
    assert_eq!(&sealed[encoded.len()..], &signature[..]);
    assert_eq!(sealed.len(), encoded.len() + 64);
}

#[test]
fn payloads_know_their_variant() {
    assert_eq!(confirm(b"").kind(), PayloadKind::Confirm);
    assert_eq!(Payload::Reveal(Reveal { keys: vec![] }).kind(), PayloadKind::Reveal);
    assert_eq!(Payload::Blame(Blame { ke_sk: secret(1) }).kind(), PayloadKind::Blame);
    assert_eq!(Payload::KeyExchange(KeyExchange { ke_pk: public(1) }).kind(), PayloadKind::KeyExchange);
}

#[test]
fn sequence_numbers_start_at_the_agreed_value() {
    let mut ch = ReadAuthenticatedPayloads::starting_at([7u8; 32], vec![public(1), public(2)], 40);
    assert_eq!(ch.expected_sequence_num(1), Some(40));
    let early = frame([7u8; 32], 1, 0, confirm(b"abc"), &secret(2));
    assert_eq!(ch.authenticate(1, &early), IncomingPayload::Invalid);
    let f = frame([7u8; 32], 1, 40, confirm(b"abc"), &secret(2));
    assert_eq!(ch.authenticate(1, &f), IncomingPayload::Valid(confirm(b"abc")));
    assert_eq!(ch.expected_sequence_num(1), Some(41));
    assert_eq!(ch.num_peers(), 2);
    // the last sequence number of all is never accepted
    let mut ch = ReadAuthenticatedPayloads::starting_at([7u8; 32], vec![public(1)], u32::MAX);
    let last = frame([7u8; 32], 0, u32::MAX, confirm(b"abc"), &secret(1));
    assert_eq!(ch.authenticate(0, &last), IncomingPayload::Invalid);
    assert_eq!(ch.expected_sequence_num(0), Some(u32::MAX));
}
