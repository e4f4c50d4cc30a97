use dicemix::field::Fp;
use dicemix::io::{seal, IncomingPayload, ReadAuthenticatedPayloads};
use dicemix::keys::{PublicKey, SecretKey};
use dicemix::messages::{
    Blame, Confirm, DcExponential, DcMain, Extension, Header, KeyExchange, Message, Payload,
    PayloadKind, Reveal,
};
use dicemix::solver::Solver;
use dicemix::state::unmask::{mask_exponential, mask_main, payload_value};
use dicemix::state::{
    DcPhase, Execution, Failure, Peer, Progress, RunState, RunStateMachine, Step,
};
use dicemix::PeerId;

fn secret(byte: u8) -> SecretKey {
    SecretKey::from_slice(&[byte; 32]).unwrap()
}

fn public(byte: u8) -> PublicKey {
    PublicKey::from_secret_key(&secret(byte)).unwrap()
}

/// The ephemeral secret of peer `i` in the first run.
fn ke_sk(i: u32) -> SecretKey {
    secret(10 + i as u8)
}

fn kepks(n: u32) -> Vec<Option<PublicKey>> {
    (0..n).map(|i| PublicKey::from_secret_key(&ke_sk(i))).collect()
}

/// The keys with which peer `i` of `n` masks its contributions.
fn reveal_of(i: u32, n: u32) -> Reveal {
    Reveal {
        keys: (0..n).filter(|j| *j != i).map(|j| (j, [(16 * i + j + 1) as u8; 32])).collect(),
    }
}

fn payload_of(i: u32) -> Vec<Vec<u8>> {
    vec![format!("payload of peer {}", i).into_bytes(), vec![i as u8; 3]]
}

fn value_of(i: u32) -> Fp {
    payload_value(&payload_of(i))
}

fn exponential(i: u32, n: u32) -> IncomingPayload {
    IncomingPayload::Valid(Payload::DcExponential(
        mask_exponential(value_of(i), &reveal_of(i, n), n as usize).unwrap(),
    ))
}

fn revealed(i: u32, n: u32) -> IncomingPayload {
    IncomingPayload::Valid(Payload::Reveal(reveal_of(i, n)))
}

fn empty_reveal() -> IncomingPayload {
    IncomingPayload::Valid(Payload::Reveal(Reveal { keys: vec![] }))
}

fn main_of(payload: &Vec<Vec<u8>>, i: u32, n: u32, ok: bool) -> IncomingPayload {
    IncomingPayload::Valid(Payload::DcMain(DcMain {
        ok,
        dc_xor: mask_main(payload, &reveal_of(i, n), n as usize).unwrap(),
        ke_pk: public(100 + i as u8),
        extension: Extension::NoExtension,
    }))
}

fn main_payload(i: u32, n: u32) -> IncomingPayload {
    main_of(&payload_of(i), i, n, true)
}

fn blame(i: u32) -> IncomingPayload {
    IncomingPayload::Valid(Payload::Blame(Blame { ke_sk: ke_sk(i) }))
}

fn confirm(i: u32) -> IncomingPayload {
    IncomingPayload::Valid(Payload::Confirm(Confirm { data: vec![i as u8] }))
}

fn same_multiset(a: &[Fp], b: &[Fp]) -> bool {
    let mut x: Vec<u128> = a.iter().map(|v| u128::from(*v)).collect();
    let mut y: Vec<u128> = b.iter().map(|v| u128::from(*v)).collect();
    x.sort();
    y.sort();
    x == y
}

/// Runs the exponential DC-net of `n` honest peers up to the request for
/// the recovery, and returns the power sums.
fn through_exponential(rsm: &mut RunStateMachine, n: u32) -> Vec<Fp> {
    for i in 0..n {
        let step = rsm.apply_incoming_message((i, exponential(i, n)));
        if i + 1 < n {
            assert!(matches!(step, Step::Waiting));
        } else {
            assert!(matches!(step, Step::Advanced));
        }
    }
    assert_eq!(rsm.state(), RunState::DcReveal(DcPhase::Exponential));
    for i in 0..n - 1 {
        assert!(matches!(rsm.apply_incoming_message((i, revealed(i, n))), Step::Waiting));
    }
    match rsm.apply_incoming_message((n - 1, revealed(n - 1, n))) {
        Step::Solve(sums) => sums,
        other => panic!("unexpected step {:?}", other),
    }
}

/// Runs `n` honest peers up to the main DC-net.
fn through_recovery(rsm: &mut RunStateMachine, n: u32) {
    let sums = through_exponential(rsm, n);
    assert_eq!(sums.len(), n as usize);
    let values: Vec<Fp> = (0..n).rev().map(value_of).collect();
    assert!(matches!(rsm.apply_solution(Some(values)), Step::Advanced));
    assert_eq!(rsm.state(), RunState::DcProcess(DcPhase::Main));
}

#[test]
fn three_honest_peers_recover_their_values() {
    let mut rsm = RunStateMachine::new(0, kepks(3));
    assert_eq!(rsm.state(), RunState::DcProcess(DcPhase::Exponential));
    let sums = through_exponential(&mut rsm, 3);
    let inputs: Vec<Fp> = (0..3).map(value_of).collect();
    assert_eq!(sums, Solver::power_sums(&inputs, 3));
    assert!(rsm.awaits_solution());

    // the values come back from the recovery in another order
    let answer = vec![inputs[2], inputs[0], inputs[1]];
    assert!(matches!(rsm.apply_solution(Some(answer)), Step::Advanced));
    let recovered = rsm.recovered().clone().unwrap();
    assert_eq!(recovered.len(), 3);
    assert!(same_multiset(&recovered, &inputs));
    assert_eq!(rsm.state(), RunState::DcProcess(DcPhase::Main));
}

#[test]
fn three_honest_peers_complete_a_run() {
    let mut rsm = RunStateMachine::new(0, kepks(3));
    through_recovery(&mut rsm, 3);
    assert!(matches!(rsm.apply_incoming_message((2, main_payload(2, 3))), Step::Waiting));
    assert!(matches!(rsm.apply_incoming_message((0, main_payload(0, 3))), Step::Waiting));
    assert!(matches!(rsm.apply_incoming_message((1, main_payload(1, 3))), Step::Advanced));
    assert_eq!(rsm.state(), RunState::DcReveal(DcPhase::Main));
    for i in 0..3 {
        let step = rsm.apply_incoming_message((i, empty_reveal()));
        assert!(matches!(step, Step::Waiting) == (i < 2));
    }
    assert_eq!(rsm.state(), RunState::Confirm);
    assert!(matches!(rsm.apply_incoming_message((0, confirm(0))), Step::Waiting));
    assert!(matches!(rsm.apply_incoming_message((1, confirm(1))), Step::Waiting));
    match rsm.apply_incoming_message((2, confirm(2))) {
        Step::Finished(outputs) => {
            assert_eq!(outputs, vec![payload_of(0), payload_of(1), payload_of(2)]);
        },
        other => panic!("unexpected step {:?}", other),
    }
    for i in 0..3 {
        assert!(!rsm.standing(i).unwrap().is_blamed());
        assert!(!rsm.standing(i).unwrap().is_accuser());
        assert!(!rsm.standing(i).unwrap().has_opened());
        assert_eq!(rsm.standing(i).unwrap().output(), &Some(payload_of(i)));
        assert_eq!(rsm.standing(i).unwrap().confirmation(), &Some(vec![i as u8]));
        assert_eq!(rsm.standing(i).unwrap().strikes(), 0);
        assert_eq!(rsm.standing(i).unwrap().next_kepk(), Some(public(100 + i as u8)));
    }
    assert!(rsm.standing(3).is_none());
}

#[test]
fn a_payload_outside_the_recovered_values_leads_to_blame() {
    let mut rsm = RunStateMachine::new(0, kepks(3));
    through_recovery(&mut rsm, 3);
    let forged = vec![b"another payload".to_vec()];
    assert!(matches!(rsm.apply_incoming_message((0, main_payload(0, 3))), Step::Waiting));
    assert!(matches!(rsm.apply_incoming_message((1, main_of(&forged, 1, 3, true))), Step::Waiting));
    assert!(matches!(rsm.apply_incoming_message((2, main_payload(2, 3))), Step::Advanced));
    assert_eq!(rsm.state(), RunState::DcReveal(DcPhase::Main));
    assert!(matches!(rsm.apply_incoming_message((0, empty_reveal())), Step::Waiting));
    assert!(matches!(rsm.apply_incoming_message((1, empty_reveal())), Step::Waiting));
    assert!(matches!(rsm.apply_incoming_message((2, empty_reveal())), Step::Advanced));
    assert_eq!(rsm.state(), RunState::Blame);
    assert!(rsm.standing(1).unwrap().is_blamed());
    assert!(!rsm.standing(0).unwrap().is_blamed());
    assert!(!rsm.standing(2).unwrap().is_blamed());
    assert!(matches!(rsm.apply_incoming_message((0, blame(0))), Step::Waiting));
    assert!(matches!(rsm.apply_incoming_message((1, blame(1))), Step::Waiting));
    match rsm.apply_incoming_message((2, blame(2))) {
        Step::Exclude(peers) => assert_eq!(peers, vec![1]),
        other => panic!("unexpected step {:?}", other),
    }
}

#[test]
fn a_second_message_in_a_round_is_rejected() {
    let mut rsm = RunStateMachine::new(0, kepks(3));
    assert!(matches!(rsm.apply_incoming_message((1, exponential(1, 3))), Step::Waiting));
    // the same payload, another payload and an invalid message are all rejected
    assert!(matches!(rsm.apply_incoming_message((1, exponential(1, 3))), Step::Rejected));
    assert!(matches!(rsm.apply_incoming_message((1, exponential(2, 3))), Step::Rejected));
    assert!(matches!(rsm.apply_incoming_message((1, IncomingPayload::Invalid)), Step::Rejected));
    assert_eq!(rsm.state(), RunState::DcProcess(DcPhase::Exponential));
    assert_eq!(rsm.standing(1).unwrap().strikes(), 0);
    // the round goes on as if nothing had happened
    assert!(matches!(rsm.apply_incoming_message((0, exponential(0, 3))), Step::Waiting));
    assert!(matches!(rsm.apply_incoming_message((2, exponential(2, 3))), Step::Advanced));
    for i in 0..2 {
        assert!(matches!(rsm.apply_incoming_message((i, revealed(i, 3))), Step::Waiting));
    }
    match rsm.apply_incoming_message((2, revealed(2, 3))) {
        Step::Solve(sums) => {
            let inputs: Vec<Fp> = (0..3).map(value_of).collect();
            assert_eq!(sums, Solver::power_sums(&inputs, 3));
        },
        other => panic!("unexpected step {:?}", other),
    }
}

#[test]
fn messages_of_unknown_peers_are_rejected() {
    let mut keys = kepks(3);
    keys[1] = None;
    let mut rsm = RunStateMachine::new(4, keys);
    assert_eq!(rsm.count(), 4);
    assert_eq!(rsm.num_peers(), 3);
    assert!(rsm.is_live(0) && !rsm.is_live(1) && rsm.is_live(2) && !rsm.is_live(3));
    assert!(matches!(rsm.apply_incoming_message((1, exponential(1, 3))), Step::Rejected));
    assert!(matches!(rsm.apply_incoming_message((3, exponential(1, 3))), Step::Rejected));
    assert!(matches!(rsm.apply_incoming_message((0, exponential(0, 3))), Step::Waiting));
    // the round is complete without the peer that takes no part
    assert!(matches!(rsm.apply_incoming_message((2, exponential(2, 3))), Step::Advanced));
}

#[test]
fn a_payload_of_another_state_is_a_strike() {
    let mut rsm = RunStateMachine::new(0, kepks(3));
    assert!(matches!(rsm.apply_incoming_message((0, confirm(0))), Step::Waiting));
    assert_eq!(rsm.standing(0).unwrap().strikes(), 1);
    assert!(!rsm.standing(0).unwrap().is_blamed());
    let key_exchange = IncomingPayload::Valid(Payload::KeyExchange(KeyExchange { ke_pk: public(1) }));
    assert!(matches!(rsm.apply_incoming_message((1, key_exchange)), Step::Waiting));
    assert!(matches!(rsm.apply_incoming_message((2, exponential(2, 3))), Step::Advanced));
    assert_eq!(rsm.state(), RunState::DcReveal(DcPhase::Exponential));
    // the second strike of peer 0 starts the blame
    assert!(matches!(rsm.apply_incoming_message((0, IncomingPayload::Invalid)), Step::Waiting));
    assert_eq!(rsm.standing(0).unwrap().strikes(), 2);
    assert!(rsm.standing(0).unwrap().is_blamed());
    assert!(matches!(rsm.apply_incoming_message((1, empty_reveal())), Step::Waiting));
    assert!(matches!(rsm.apply_incoming_message((2, revealed(2, 3))), Step::Advanced));
    assert_eq!(rsm.state(), RunState::Blame);
    assert!(matches!(rsm.apply_incoming_message((0, blame(0))), Step::Waiting));
    assert!(matches!(rsm.apply_incoming_message((1, blame(1))), Step::Waiting));
    match rsm.apply_incoming_message((2, blame(2))) {
        Step::Exclude(peers) => assert_eq!(peers, vec![0]),
        other => panic!("unexpected step {:?}", other),
    }
}

#[test]
fn an_ill_formed_vector_is_a_strike() {
    let mut rsm = RunStateMachine::new(0, kepks(3));
    let short = IncomingPayload::Valid(Payload::DcExponential(DcExponential {
        commitment: [0u8; 32],
        dc_exp: vec![Fp::from_u127(1), Fp::from_u127(2)],
    }));
    assert!(matches!(rsm.apply_incoming_message((0, short)), Step::Waiting));
    assert_eq!(rsm.standing(0).unwrap().strikes(), 1);
}

#[test]
fn a_double_reveal_is_conclusive() {
    let mut rsm = RunStateMachine::new(0, kepks(3));
    for i in 0..3 {
        rsm.apply_incoming_message((i, exponential(i, 3)));
    }
    let twice = IncomingPayload::Valid(Payload::Reveal(Reveal {
        keys: vec![(1, [1u8; 32]), (1, [2u8; 32])],
    }));
    assert!(matches!(rsm.apply_incoming_message((0, twice)), Step::Waiting));
    assert!(rsm.standing(0).unwrap().is_blamed());
    let out_of_range = IncomingPayload::Valid(Payload::Reveal(Reveal { keys: vec![(3, [1u8; 32])] }));
    assert!(matches!(rsm.apply_incoming_message((1, out_of_range)), Step::Waiting));
    assert!(rsm.standing(1).unwrap().is_blamed());
    assert!(matches!(rsm.apply_incoming_message((2, revealed(2, 3))), Step::Advanced));
    assert_eq!(rsm.state(), RunState::Blame);
    // a reveal in a later round of keys that were revealed before
    let mut rsm = RunStateMachine::new(0, kepks(3));
    through_recovery(&mut rsm, 3);
    for i in 0..3 {
        rsm.apply_incoming_message((i, main_payload(i, 3)));
    }
    assert!(matches!(rsm.apply_incoming_message((0, revealed(0, 3))), Step::Waiting));
    assert!(rsm.standing(0).unwrap().is_blamed());
}

#[test]
fn a_reveal_that_does_not_match_the_commitment_leads_to_blame() {
    let mut rsm = RunStateMachine::new(0, kepks(3));
    for i in 0..3 {
        rsm.apply_incoming_message((i, exponential(i, 3)));
    }
    assert!(matches!(rsm.apply_incoming_message((0, revealed(0, 3))), Step::Waiting));
    // peer 1 reveals the keys of peer 2
    let other = IncomingPayload::Valid(Payload::Reveal(Reveal { keys: vec![(0, [9u8; 32])] }));
    assert!(matches!(rsm.apply_incoming_message((1, other)), Step::Waiting));
    assert!(matches!(rsm.apply_incoming_message((2, revealed(2, 3))), Step::Advanced));
    assert_eq!(rsm.state(), RunState::Blame);
    assert!(rsm.standing(1).unwrap().is_blamed());
    assert!(!rsm.standing(0).unwrap().is_blamed());
    assert!(!rsm.standing(2).unwrap().is_blamed());
}

#[test]
fn a_contribution_that_encodes_no_value_leads_to_blame() {
    let mut rsm = RunStateMachine::new(0, kepks(3));
    rsm.apply_incoming_message((0, exponential(0, 3)));
    // peer 1 masks a vector that is no sequence of powers
    let mut forged = mask_exponential(value_of(1), &reveal_of(1, 3), 3).unwrap();
    forged.dc_exp[2] = forged.dc_exp[2] + Fp::from_u127(1);
    rsm.apply_incoming_message((1, IncomingPayload::Valid(Payload::DcExponential(forged))));
    rsm.apply_incoming_message((2, exponential(2, 3)));
    for i in 0..2 {
        rsm.apply_incoming_message((i, revealed(i, 3)));
    }
    assert!(matches!(rsm.apply_incoming_message((2, revealed(2, 3))), Step::Solve(_)));
    // values that do not have the power sums are not taken
    let inputs: Vec<Fp> = (0..3).map(value_of).collect();
    assert!(matches!(rsm.apply_solution(Some(inputs)), Step::Fatal));
    assert!(rsm.awaits_solution());
    assert!(matches!(rsm.apply_incoming_message((0, empty_reveal())), Step::Rejected));
    // no values have the power sums
    assert!(matches!(rsm.apply_solution(None), Step::Advanced));
    assert_eq!(rsm.state(), RunState::Blame);
    assert!(rsm.standing(1).unwrap().is_blamed());
    assert!(!rsm.standing(0).unwrap().is_blamed());
    assert!(!rsm.standing(2).unwrap().is_blamed());
    assert!(matches!(rsm.apply_solution(None), Step::Rejected));
}

#[test]
fn a_failure_of_the_recovery_is_fatal() {
    let mut rsm = RunStateMachine::new(0, kepks(3));
    through_exponential(&mut rsm, 3);
    assert!(matches!(rsm.apply_solution(None), Step::Fatal));
    assert!(matches!(rsm.apply_solution(Some(vec![Fp::from_u127(1)])), Step::Fatal));
    assert_eq!(rsm.state(), RunState::DcReveal(DcPhase::Exponential));
}

#[test]
fn a_refused_disclosure_is_conclusive() {
    let mut rsm = RunStateMachine::new(0, kepks(3));
    through_recovery(&mut rsm, 3);
    // peer 2 calls for blame
    rsm.apply_incoming_message((0, main_payload(0, 3)));
    rsm.apply_incoming_message((1, main_payload(1, 3)));
    assert!(matches!(
        rsm.apply_incoming_message((2, main_of(&payload_of(2), 2, 3, false))),
        Step::Advanced
    ));
    assert_eq!(rsm.state(), RunState::Blame);
    // peer 0 discloses the secret of another key
    let wrong = IncomingPayload::Valid(Payload::Blame(Blame { ke_sk: ke_sk(1) }));
    assert!(matches!(rsm.apply_incoming_message((0, wrong)), Step::Waiting));
    assert!(rsm.standing(0).unwrap().is_blamed());
    assert!(matches!(rsm.apply_incoming_message((1, blame(1))), Step::Waiting));
    match rsm.apply_incoming_message((2, blame(2))) {
        Step::Exclude(peers) => assert_eq!(peers, vec![0]),
        other => panic!("unexpected step {:?}", other),
    }
}

#[test]
fn an_accuser_without_evidence_is_excluded() {
    let mut rsm = RunStateMachine::new(0, kepks(3));
    through_recovery(&mut rsm, 3);
    rsm.apply_incoming_message((0, main_payload(0, 3)));
    rsm.apply_incoming_message((1, main_of(&payload_of(1), 1, 3, false)));
    assert!(matches!(rsm.apply_incoming_message((2, main_payload(2, 3))), Step::Advanced));
    assert_eq!(rsm.state(), RunState::Blame);
    assert!(rsm.standing(1).unwrap().is_accuser());
    rsm.apply_incoming_message((0, blame(0)));
    assert!(rsm.standing(0).unwrap().has_opened());
    rsm.apply_incoming_message((1, blame(1)));
    match rsm.apply_incoming_message((2, blame(2))) {
        Step::Exclude(peers) => assert_eq!(peers, vec![1]),
        other => panic!("unexpected step {:?}", other),
    }
}

#[test]
fn a_missing_confirmation_excludes_the_peer() {
    let mut rsm = RunStateMachine::new(0, kepks(3));
    through_recovery(&mut rsm, 3);
    for i in 0..3 {
        rsm.apply_incoming_message((i, main_payload(i, 3)));
    }
    for i in 0..3 {
        rsm.apply_incoming_message((i, empty_reveal()));
    }
    assert_eq!(rsm.state(), RunState::Confirm);
    rsm.apply_incoming_message((0, confirm(0)));
    rsm.apply_incoming_message((1, IncomingPayload::Invalid));
    match rsm.apply_incoming_message((2, confirm(2))) {
        Step::Exclude(peers) => assert_eq!(peers, vec![1]),
        other => panic!("unexpected step {:?}", other),
    }
}

#[test]
fn states_move_forward_only() {
    let exp = RunState::DcProcess(DcPhase::Exponential);
    let reveal_exp = RunState::DcReveal(DcPhase::Exponential);
    let main = RunState::DcProcess(DcPhase::Main);
    let reveal_main = RunState::DcReveal(DcPhase::Main);
    let all = [exp, reveal_exp, main, reveal_main, RunState::Blame, RunState::Confirm];
    for (i, a) in all.iter().enumerate() {
        for (j, b) in all.iter().enumerate() {
            let unordered = (i == 4 && j == 5) || (i == 5 && j == 4);
            assert_eq!(a.precedes(b), i < j && !unordered);
            assert_eq!(a < b, i < j && !unordered);
            assert_eq!(a.partial_cmp(b).is_none(), unordered);
        }
    }
    assert!(!(RunState::Blame < RunState::Confirm));
    assert!(!(RunState::Confirm < RunState::Blame));
    assert!(RunState::Blame.partial_cmp(&RunState::Confirm).is_none());

    let mut rsm = RunStateMachine::new(0, kepks(2));
    assert!(!rsm.try_set_state(exp));
    assert!(rsm.try_set_state(main));
    assert!(!rsm.try_set_state(reveal_exp));
    assert_eq!(rsm.state(), main);
    assert!(rsm.try_set_state(RunState::Blame));
    assert!(!rsm.try_set_state(RunState::Confirm));
    assert_eq!(rsm.state(), RunState::Blame);
    let mut rsm = RunStateMachine::new(0, kepks(2));
    rsm.set_state(RunState::Confirm);
    assert!(!rsm.try_set_state(RunState::Blame));
    assert_eq!(rsm.state(), RunState::Confirm);
}

fn roster(n: u32) -> Vec<Peer> {
    (0..n).map(|i| Peer::new(PeerId([i as u8; 32], [0u8; 32]), public(50 + i as u8))).collect()
}

fn initial_kepks(n: u32) -> Vec<PublicKey> {
    (0..n).map(|i| PublicKey::from_secret_key(&ke_sk(i)).unwrap()).collect()
}

#[test]
fn a_session_of_honest_peers_completes() {
    let mut execution = Execution::new(roster(3), initial_kepks(3));
    assert_eq!(execution.num_peers(), 3);
    for i in 0..3 {
        execution.drive((i, exponential(i, 3)));
    }
    assert!(matches!(execution.drive((0, revealed(0, 3))), Progress::Waiting));
    assert!(matches!(execution.drive((1, revealed(1, 3))), Progress::Waiting));
    let sums = match execution.drive((2, revealed(2, 3))) {
        Progress::Solve(sums) => sums,
        other => panic!("unexpected progress {:?}", other),
    };
    assert_eq!(sums.len(), 3);
    let values: Vec<Fp> = (0..3).map(value_of).collect();
    assert!(matches!(execution.solved(Some(values)), Progress::Advanced));
    for i in 0..3 {
        execution.drive((i, main_payload(i, 3)));
    }
    for i in 0..3 {
        execution.drive((i, empty_reveal()));
    }
    assert!(matches!(execution.drive((0, confirm(0))), Progress::Waiting));
    assert!(matches!(execution.drive((1, confirm(1))), Progress::Waiting));
    match execution.drive((2, confirm(2))) {
        Progress::Completed(outputs) => {
            assert_eq!(outputs, vec![payload_of(0), payload_of(1), payload_of(2)])
        },
        other => panic!("unexpected progress {:?}", other),
    }
    assert!(execution.is_over());
    assert!(execution.exclusion_list().is_empty());
    assert!(matches!(execution.drive((0, confirm(0))), Progress::Rejected));
}

#[test]
fn a_disruptive_peer_is_excluded_and_a_new_run_starts() {
    let mut execution = Execution::new(roster(3), initial_kepks(3));
    for i in 0..3 {
        execution.drive((i, exponential(i, 3)));
    }
    for i in 0..3 {
        execution.drive((i, revealed(i, 3)));
    }
    let values: Vec<Fp> = (0..3).map(value_of).collect();
    assert!(matches!(execution.solved(Some(values)), Progress::Advanced));
    let forged = vec![b"not what was announced".to_vec()];
    execution.drive((0, main_payload(0, 3)));
    execution.drive((1, main_of(&forged, 1, 3, true)));
    execution.drive((2, main_payload(2, 3)));
    for i in 0..3 {
        execution.drive((i, empty_reveal()));
    }
    assert_eq!(execution.run().state(), RunState::Blame);
    execution.drive((0, blame(0)));
    execution.drive((1, blame(1)));
    match execution.drive((2, blame(2))) {
        Progress::Restarted(peers) => assert_eq!(peers, vec![1]),
        other => panic!("unexpected progress {:?}", other),
    }
    assert!(!execution.is_over());
    assert_eq!(execution.exclusion_list(), vec![1]);
    assert!(execution.is_excluded(1) && !execution.is_excluded(0) && !execution.is_excluded(2));
    // the new run starts from the beginning with the two peers that are left
    let run = execution.run();
    assert_eq!(run.count(), 1);
    assert_eq!(run.state(), RunState::DcProcess(DcPhase::Exponential));
    assert!(run.is_live(0) && !run.is_live(1) && run.is_live(2));
    assert_eq!(run.standing(0).unwrap().strikes(), 0);
    assert!(run.recovered().is_none());
    // the excluded peer is no longer heard
    assert!(matches!(execution.drive((1, exponential(1, 3))), Progress::Rejected));
    assert!(matches!(execution.drive((0, exponential(0, 3))), Progress::Waiting));
    assert!(matches!(execution.drive((2, exponential(2, 3))), Progress::Advanced));
}

#[test]
fn a_session_with_too_few_peers_fails() {
    let mut execution = Execution::new(roster(2), initial_kepks(2));
    execution.drive((0, exponential(0, 2)));
    execution.drive((1, IncomingPayload::Invalid));
    execution.drive((0, revealed(0, 2)));
    // the second strike of peer 1
    assert!(matches!(execution.drive((1, IncomingPayload::Invalid)), Progress::Advanced));
    assert_eq!(execution.run().state(), RunState::Blame);
    execution.drive((0, blame(0)));
    match execution.drive((1, IncomingPayload::Invalid)) {
        Progress::Failed(failure) => assert_eq!(failure, Failure::InsufficientParticipants),
        other => panic!("unexpected progress {:?}", other),
    }
    assert!(execution.is_over());
    assert_eq!(execution.exclusion_list(), vec![1]);
}

#[test]
fn a_failed_recovery_ends_the_session() {
    let mut execution = Execution::new(roster(2), initial_kepks(2));
    for i in 0..2 {
        execution.drive((i, exponential(i, 2)));
    }
    for i in 0..2 {
        execution.drive((i, revealed(i, 2)));
    }
    match execution.solved(None) {
        Progress::Failed(failure) => assert_eq!(failure, Failure::RecoveryFailed),
        other => panic!("unexpected progress {:?}", other),
    }
    assert!(execution.is_over());
    assert!(matches!(execution.solved(None), Progress::Rejected));
}

#[test]
fn states_await_their_payloads() {
    assert_eq!(RunState::DcProcess(DcPhase::Exponential).awaited(), PayloadKind::DcExponential);
    assert_eq!(RunState::DcReveal(DcPhase::Exponential).awaited(), PayloadKind::Reveal);
    assert_eq!(RunState::DcProcess(DcPhase::Main).awaited(), PayloadKind::DcMain);
    assert_eq!(RunState::DcReveal(DcPhase::Main).awaited(), PayloadKind::Reveal);
    assert_eq!(RunState::Blame.awaited(), PayloadKind::Blame);
    assert_eq!(RunState::Confirm.awaited(), PayloadKind::Confirm);
}

#[test]
fn frames_drive_a_session_through_the_channel() {
    let session = [42u8; 32];
    let peers = roster(3);
    let ltvks: Vec<PublicKey> = peers.iter().map(|peer| *peer.ltvk()).collect();
    let mut channel = ReadAuthenticatedPayloads::new(session, ltvks);
    let mut execution = Execution::new(peers, initial_kepks(3));
    let mut sequence = [0u32; 3];
    let mut send = |channel: &mut ReadAuthenticatedPayloads,
                    execution: &mut Execution,
                    i: u32,
                    incoming: IncomingPayload|
     -> Progress {
        let payload = match incoming {
            IncomingPayload::Valid(payload) => payload,
            IncomingPayload::Invalid => panic!("nothing to send"),
        };
        let message = Message {
            header: Header {
                session_id: session,
                peer_index: i,
                sequence_num: sequence[i as usize],
            },
            payload,
        };
        sequence[i as usize] += 1;
        let frame = seal(&message, &secret(50 + i as u8)).unwrap();
        let incoming = channel.authenticate(i, &frame);
        assert!(matches!(incoming, IncomingPayload::Valid(_)));
        // the same frame again is invalid and is rejected as a second item
        assert_eq!(channel.authenticate(i, &frame), IncomingPayload::Invalid);
        let progress = execution.drive((i, incoming));
        if matches!(progress, Progress::Waiting) {
            let again = execution.drive((i, IncomingPayload::Invalid));
            assert!(matches!(again, Progress::Rejected));
        }
        progress
    };
    for i in 0..3 {
        send(&mut channel, &mut execution, i, exponential(i, 3));
    }
    send(&mut channel, &mut execution, 0, revealed(0, 3));
    send(&mut channel, &mut execution, 1, revealed(1, 3));
    let sums = match send(&mut channel, &mut execution, 2, revealed(2, 3)) {
        Progress::Solve(sums) => sums,
        other => panic!("unexpected progress {:?}", other),
    };
    let values: Vec<Fp> = (0..3).map(value_of).collect();
    assert!(Solver::is_solution(&sums, &values));
    assert!(matches!(execution.solved(Some(values)), Progress::Advanced));
    for i in 0..3 {
        send(&mut channel, &mut execution, i, main_payload(i, 3));
    }
    for i in 0..3 {
        send(&mut channel, &mut execution, i, empty_reveal());
    }
    send(&mut channel, &mut execution, 0, confirm(0));
    send(&mut channel, &mut execution, 1, confirm(1));
    match send(&mut channel, &mut execution, 2, confirm(2)) {
        Progress::Completed(outputs) => {
            assert_eq!(outputs, vec![payload_of(0), payload_of(1), payload_of(2)])
        },
        other => panic!("unexpected progress {:?}", other),
    }
    assert_eq!(channel.expected_sequence_num(0), Some(5));
}
