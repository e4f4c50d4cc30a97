//! Pads, commitments and what remains of a contribution when its pads are
//! taken off.
//!
//! A peer masks its contributions with pads.  Every pad is derived from a
//! symmetric key, and the pad of a contribution is the combination of the
//! pads of all keys of the peer.  Once the peer has revealed its keys,
//! everybody can derive the pads again and take them off.

use super::history::{fresh_reveal, no_keys, with_revealed, RunHistory};
use crate::dc::fp::{all_wf, FpVec};
use crate::dc::xor::XorVec;
use super::run::{
    exponential_pad, main_round, opened_exponential, opened_main, reveal_matches, History,
};
use crate::messages::{DcExponential, Payload, Reveal};
use crate::solver::{powers, Solver};
use crate::{PeerIndex, SymmetricKey};
use crate::dc::{combined, derive_pad, round_start, unmask, DcGroup, Group};
use crate::field::Fp;
use crate::keys::{blake2s, blake2s_256, bytes_eq};
use crate::wire::{append, lemma_bytes_model, models, Layout, Wire};
use vstd::prelude::*;

verus! {

/// The prefix of the digests that commit to pads: `DICEMIX_PAD_COMMITMENT`,
/// filled up with underscores.
pub const COMMITMENT_PREFIX: [u8; 32] = [
    68, 73, 67, 69, 77, 73, 88, 95, 80, 65, 68, 95, 67, 79, 77, 77, 73, 84, 77, 69, 78, 84, 95, 95,
    95, 95, 95, 95, 95, 95, 95, 95,
];

/// The prefix of the digests that stand for payloads: `DICEMIX_PAYLOAD_VALUE`,
/// filled up with underscores.
pub const VALUE_PREFIX: [u8; 32] = [
    68, 73, 67, 69, 77, 73, 88, 95, 80, 65, 89, 76, 79, 65, 68, 95, 86, 65, 76, 85, 69, 95, 95, 95,
    95, 95, 95, 95, 95, 95, 95, 95,
];

/// The round of the generator from which the pad of the exponential DC-net
/// is derived.
pub const EXPONENTIAL_ROUND: u32 = 0;

/// The vector of `len` neutral elements.
pub open spec fn neutral<G: Group>(len: nat) -> Seq<G::Element> {
    Seq::new(len, |i: int| G::element_zero())
}

/// The combination of the pads of `len` elements that the keys of the first
/// `peers` peer indices yield in `round`.
pub open spec fn pad_sum<G: Group>(
    keys: Map<usize, Seq<u8>>,
    peers: nat,
    len: nat,
    round: u32,
) -> Seq<G::Element>
    decreases peers,
{
    if peers == 0 {
        neutral::<G>(len)
    } else {
        let before = pad_sum::<G>(keys, (peers - 1) as nat, len, round);
        if keys.dom().contains((peers - 1) as usize) {
            combined::<G>(
                before,
                G::pad_elements(len, round_start(keys[(peers - 1) as usize], round)),
            )
        } else {
            before
        }
    }
}

/// A pad has the length that was asked for.
pub proof fn lemma_pad_sum_len<G: Group>(
    keys: Map<usize, Seq<u8>>,
    peers: nat,
    len: nat,
    round: u32,
)
    ensures
        pad_sum::<G>(keys, peers, len, round).len() == len,
    decreases peers,
{
    if peers > 0 {
        lemma_pad_sum_len::<G>(keys, (peers - 1) as nat, len, round);
    }
}

/// A pad of field elements consists of consistent elements.
pub proof fn lemma_pad_sum_wf(keys: Map<usize, Seq<u8>>, peers: nat, len: nat, round: u32)
    ensures
        pad_sum::<FpVec>(keys, peers, len, round).len() == len,
        all_wf(pad_sum::<FpVec>(keys, peers, len, round)),
    decreases peers,
{
    lemma_pad_sum_len::<FpVec>(keys, peers, len, round);
    if peers == 0 {
        let blank = neutral::<FpVec>(len);
        assert forall|i: int| 0 <= i < blank.len() implies (#[trigger] blank[i]).wf() by {
            Fp::lemma_with_repr(0);
        }
    } else {
        lemma_pad_sum_wf(keys, (peers - 1) as nat, len, round);
        if keys.dom().contains((peers - 1) as usize) {
            let part = FpVec::pad_elements(len, round_start(keys[(peers - 1) as usize], round));
            crate::dc::fp::lemma_pad_elements_wf(
                len,
                round_start(keys[(peers - 1) as usize], round),
            );
            crate::dc::fp::lemma_combined_wf(
                pad_sum::<FpVec>(keys, (peers - 1) as nat, len, round),
                part,
            );
        }
    }
}

/// Derives the pad of `len` elements from the keys that a peer has revealed
/// for the first `peers` peer indices.
pub fn compute_pad<G: DcGroup>(history: &RunHistory, peers: usize, len: usize, round: u32) -> (pad:
    G)
    ensures
        pad.valid(),
        pad.elements() == pad_sum::<G>(history.keys(), peers as nat, len as nat, round),
        pad.elements().len() == len,
{
    let mut pad = G::zero(len);
    assert(pad.elements() =~= neutral::<G>(len as nat));
    let mut j: usize = 0;
    while j < peers
        invariant
            j <= peers,
            pad.valid(),
            pad.elements().len() == len,
            pad.elements() == pad_sum::<G>(history.keys(), j as nat, len as nat, round),
        decreases peers - j,
    {
        match history.revealed_key(j) {
            Some(key) => {
                let part: G = derive_pad(len, &key, round);
                let ghost before = pad.elements();
                pad = pad.combine(part);
                assert(pad.elements() =~= combined::<G>(before, part.elements()));
            },
            None => {},
        }
        j += 1;
    }
    pad
}

/// The commitment to a pad of field elements: the digest of the prefix and
/// the pad as it is laid out on the wire.
pub open spec fn commitment_to(pad: Seq<Fp>) -> Seq<u8> {
    blake2s_256(COMMITMENT_PREFIX@ + Vec::<Fp>::encoding(models(pad)))
}

/// Computes the commitment to a pad.
pub fn commit(pad: &FpVec) -> (commitment: [u8; 32])
    ensures
        commitment@ == commitment_to(pad@),
{
    let mut input: Vec<u8> = Vec::new();
    append(&mut input, COMMITMENT_PREFIX.as_slice());
    pad.as_vec().write(&mut input);
    assert(input@ =~= COMMITMENT_PREFIX@ + Vec::<Fp>::encoding(models(pad@)));
    blake2s(input.as_slice())
}

/// The field element that stands for a list of byte vectors: the low 127
/// bits of the first 16 bytes, read as a little-endian integer, of the
/// digest of the prefix and the list as it is laid out on the wire.
pub open spec fn value_of(output: Seq<Seq<u8>>) -> nat {
    (vstd::bytes::spec_u128_from_le_bytes(
        blake2s_256(VALUE_PREFIX@ + Vec::<Vec<u8>>::encoding(output)).subrange(0, 16),
    ) % 0x8000_0000_0000_0000_0000_0000_0000_0000) as nat
}

/// Computes the field element that stands for a list of byte vectors.
pub fn payload_value(output: &Vec<Vec<u8>>) -> (value: Fp)
    ensures
        value.wf(),
        value.repr() == value_of(output.model()),
{
    let mut input: Vec<u8> = Vec::new();
    append(&mut input, VALUE_PREFIX.as_slice());
    output.write(&mut input);
    assert(input@ =~= VALUE_PREFIX@ + Vec::<Vec<u8>>::encoding(output.model()));
    let digest = blake2s(input.as_slice());
    let head = vstd::slice::slice_subrange(digest.as_slice(), 0, 16);
    Fp::from_u128_discard_msb(vstd::bytes::u128_from_le_bytes(head))
}

/// Takes the pad off the exponential contribution of a peer.
pub fn open_exponential(history: &RunHistory, peers: usize) -> (opened: FpVec)
    requires
        history@.exponential is Some,
        history@.exponential->0.dc_exp@.len() == peers,
        all_wf(history@.exponential->0.dc_exp@),
    ensures
        opened@ == opened_exponential(history@, peers as nat),
        opened@.len() == peers,
        all_wf(opened@),
{
    let pad: FpVec = compute_pad(history, peers, peers, EXPONENTIAL_ROUND);
    match history.dc_exponential() {
        Some(contribution) => {
            let masked = FpVec::from_slice(contribution.dc_exp.as_slice());
            unmask(masked, pad)
        },
        None => pad,
    }
}

/// Whether the keys that a peer has revealed yield the pad that it has
/// committed to.
pub fn reveal_is_honest(history: &RunHistory, peers: usize) -> (honest: bool)
    requires
        history@.exponential is Some,
    ensures
        honest == reveal_matches(history@, peers as nat),
{
    let pad: FpVec = compute_pad(history, peers, peers, EXPONENTIAL_ROUND);
    let commitment = commit(&pad);
    match history.dc_exponential() {
        Some(contribution) => bytes_eq(commitment.as_slice(), contribution.commitment.as_slice()),
        None => false,
    }
}

/// Takes the pads off the main contribution of a peer.
pub fn open_main(history: &RunHistory, peers: usize) -> (opened: Vec<Vec<u8>>)
    requires
        history@.main is Some,
        history@.main->0.dc_xor@.len() < u32::MAX,
    ensures
        opened.model() == opened_main(history@, peers as nat),
{
    let mut opened: Vec<Vec<u8>> = Vec::new();
    match history.dc_main() {
        Some(contribution) => {
            let slots: usize = contribution.dc_xor.len();
            let mut s: usize = 0;
            while s < slots
                invariant
                    s <= slots,
                    slots == contribution.dc_xor@.len(),
                    slots < u32::MAX,
                    history@.main == Some(*contribution),
                    opened@.len() == s,
                    forall|j: int|
                        0 <= j < s ==> (#[trigger] opened@[j])@ == opened_main(
                            history@,
                            peers as nat,
                        )[j],
                decreases slots - s,
            {
                let slot = &contribution.dc_xor[s];
                let pad: XorVec<u8> = compute_pad(history, peers, slot.len(), (s + 1) as u32);
                let masked = XorVec::from_slice(slot.as_slice());
                let clear = unmask(masked, pad);
                opened.push(clear.into_inner());
                s += 1;
            }
            proof {
                let expected = opened_main(history@, peers as nat);
                assert forall|j: int| 0 <= j < opened@.len() implies opened.model()[j]
                    == expected[j] by {
                    lemma_bytes_model(opened@[j]);
                }
                assert(opened.model() =~= expected);
            }
        },
        None => {},
    }
    opened
}

/// A copy of the entries of a reveal.
pub fn copy_reveal(reveal: &Reveal) -> (copy: Reveal)
    ensures
        copy.keys@ == reveal.keys@,
{
    let mut keys: Vec<(PeerIndex, SymmetricKey)> = Vec::new();
    let mut i: usize = 0;
    while i < reveal.keys.len()
        invariant
            i <= reveal.keys@.len(),
            keys@ == reveal.keys@.subrange(0, i as int),
        decreases reveal.keys@.len() - i,
    {
        keys.push(reveal.keys[i]);
        assert(keys@ =~= reveal.keys@.subrange(0, i + 1));
        i += 1;
    }
    assert(keys@ =~= reveal.keys@);
    Reveal { keys }
}

/// The history of a peer that has revealed the keys of `reveal` and sent
/// nothing else; `None` if the reveal holds two keys for one peer.
pub fn history_of_reveal(reveal: &Reveal, peers: usize) -> (history: Option<RunHistory>)
    ensures
        history is Some == fresh_reveal(no_keys(), reveal.keys@),
        history is Some ==> history->0@ == (History {
            exponential: None,
            main: None,
            keys: with_revealed(no_keys(), reveal.keys@),
        }),
{
    let mut history = RunHistory::new(peers);
    if !history.accepts_reveal(reveal) {
        return None;
    }
    history.record_payload(Payload::Reveal(copy_reveal(reveal)));
    Some(history)
}

/// The exponential contribution of a peer with the value `value` that masks
/// its contribution with the pads of the keys of `reveal`: the commitment
/// to the pad, and the powers of the value combined with the pad.  `None`
/// if the reveal holds two keys for one peer.
pub fn mask_exponential(value: Fp, reveal: &Reveal, peers: usize) -> (contribution: Option<
    DcExponential,
>)
    requires
        value.wf(),
    ensures
        contribution is Some == fresh_reveal(no_keys(), reveal.keys@),
        contribution is Some ==> {
            let pad = exponential_pad(with_revealed(no_keys(), reveal.keys@), peers as nat);
            &&& contribution->0.commitment@ == commitment_to(pad)
            &&& contribution->0.dc_exp@ == combined::<FpVec>(powers(value, peers as nat), pad)
            &&& all_wf(contribution->0.dc_exp@)
        },
{
    match history_of_reveal(reveal, peers) {
        Some(history) => {
            let pad: FpVec = compute_pad(&history, peers, peers, EXPONENTIAL_ROUND);
            let commitment = commit(&pad);
            let encoding = FpVec::new(Solver::powers(value, peers));
            let masked = encoding.combine(pad);
            assert(masked@ =~= combined::<FpVec>(
                powers(value, peers as nat),
                exponential_pad(with_revealed(no_keys(), reveal.keys@), peers as nat),
            ));
            Some(DcExponential { commitment, dc_exp: masked.into_inner() })
        },
        None => None,
    }
}

/// The slots of a payload masked with the pads of the keys of `reveal`.
/// `None` if the reveal holds two keys for one peer.
pub fn mask_main(payload: &Vec<Vec<u8>>, reveal: &Reveal, peers: usize) -> (slots: Option<
    Vec<Vec<u8>>,
>)
    requires
        payload@.len() < u32::MAX,
    ensures
        slots is Some == fresh_reveal(no_keys(), reveal.keys@),
        slots is Some ==> slots->0@.len() == payload@.len() && forall|s: int|
            0 <= s < payload@.len() ==> (#[trigger] slots->0@[s])@ == combined::<XorVec<u8>>(
                payload@[s]@,
                pad_sum::<XorVec<u8>>(
                    with_revealed(no_keys(), reveal.keys@),
                    peers as nat,
                    payload@[s]@.len(),
                    main_round(s),
                ),
            ),
{
    match history_of_reveal(reveal, peers) {
        Some(history) => {
            let mut slots: Vec<Vec<u8>> = Vec::new();
            let n: usize = payload.len();
            let mut s: usize = 0;
            while s < n
                invariant
                    s <= n,
                    n == payload@.len(),
                    n < u32::MAX,
                    history@.keys == with_revealed(no_keys(), reveal.keys@),
                    slots@.len() == s,
                    forall|j: int|
                        0 <= j < s ==> (#[trigger] slots@[j])@ == combined::<XorVec<u8>>(
                            payload@[j]@,
                            pad_sum::<XorVec<u8>>(
                                history@.keys,
                                peers as nat,
                                payload@[j]@.len(),
                                main_round(j),
                            ),
                        ),
                decreases n - s,
            {
                let slot = &payload[s];
                let pad: XorVec<u8> = compute_pad(&history, peers, slot.len(), (s + 1) as u32);
                let clear = XorVec::from_slice(slot.as_slice());
                let masked = clear.combine(pad);
                assert(masked@ =~= combined::<XorVec<u8>>(clear@, pad@));
                slots.push(masked.into_inner());
                s += 1;
            }
            Some(slots)
        },
        None => None,
    }
}

} // verus!
