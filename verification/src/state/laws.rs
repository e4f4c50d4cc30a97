//! What the DC-nets yield.
//!
//! Every peer masks the powers of its value with a pad and commits to the
//! pad.  Once the keys are revealed the pads are taken off, and the sum of
//! what is left are the power sums of the values.  The laws of this module
//! say that this is so for every run in which the peers do as they should:
//! the power sums that the run hands to the recovery are those of the
//! values of its peers, so the values themselves are an answer that the
//! run accepts.  The main DC-net works in the same way on the payloads: a
//! payload that was masked with the pads of the keys is the payload again
//! once the pads are taken off.

use super::run::{
    aggregate, exponential_pad, is_encoding, opened_exponential, reveal_matches, History, Run,
};
use super::run::{main_round, opened_main};
use super::unmask::{
    commitment_to, lemma_pad_sum_len, lemma_pad_sum_wf, neutral, pad_sum, EXPONENTIAL_ROUND,
};
use crate::dc::xor::XorVec;
use crate::dc::fp::{all_wf, lemma_combined_wf, lemma_unmask_masked, lemma_unmasked_wf, values, FpVec};
use crate::dc::{combined, unmasked};
use crate::field::{lemma_sum_value, Fp};
use crate::messages::DcExponential;
use crate::solver::{
    lemma_first_power, lemma_power_of_same, lemma_power_sum_wf, lemma_power_wf, power, power_sum,
    powers, solves,
};
use vstd::prelude::*;

verus! {

/// The contribution of a peer is that of a peer that does as it should: it
/// has the length of the run and consistent elements, its commitment is
/// that to the pad of the keys, and without the pad it is the encoding of a
/// value.
pub open spec fn is_honest(history: History, peers: nat) -> bool {
    &&& history.exponential is Some
    &&& history.exponential->0.dc_exp@.len() == peers
    &&& all_wf(history.exponential->0.dc_exp@)
    &&& reveal_matches(history, peers)
    &&& is_encoding(opened_exponential(history, peers))
}

/// The value that a contribution encodes: its first element without the
/// pad.
pub open spec fn encoded_value(history: History, peers: nat) -> Fp {
    opened_exponential(history, peers)[0]
}

/// The values that the contributions of the peers encode, in the order of
/// the peers.
pub open spec fn encoded_values(histories: Seq<Option<History>>, peers: nat) -> Seq<Fp> {
    Seq::new(peers, |i: int| encoded_value(histories[i]->0, peers))
}

/// The powers of a value, masked with the pad of the keys and sent with the
/// commitment to that pad, are the contribution of a peer that does as it
/// should, and the value that they encode is the value.
pub proof fn lemma_masked_powers_are_honest(
    value: Fp,
    keys: Map<usize, Seq<u8>>,
    contribution: DcExponential,
    peers: nat,
)
    requires
        value.wf(),
        contribution.dc_exp@ == combined::<FpVec>(
            powers(value, peers),
            exponential_pad(keys, peers),
        ),
        contribution.commitment@ == commitment_to(exponential_pad(keys, peers)),
    ensures
        is_honest(History { exponential: Some(contribution), main: None, keys }, peers),
        peers > 0 ==> encoded_value(
            History { exponential: Some(contribution), main: None, keys },
            peers,
        ).same(value),
{
    let history = History { exponential: Some(contribution), main: None, keys };
    let pad = exponential_pad(keys, peers);
    let encoding = powers(value, peers);
    lemma_pad_sum_wf(keys, peers, peers, EXPONENTIAL_ROUND);
    assert forall|k: int| 0 <= k < encoding.len() implies (#[trigger] encoding[k]).wf() by {
        lemma_power_wf(value, (k + 1) as nat);
    }
    lemma_combined_wf(encoding, pad);
    lemma_unmask_masked(encoding, pad);
    let opened = opened_exponential(history, peers);
    assert(opened == unmasked::<FpVec>(combined::<FpVec>(encoding, pad), pad));
    assert forall|k: int| 0 <= k < opened.len() implies (#[trigger] opened[k]).same(
        power(opened[0], (k + 1) as nat),
    ) by {
        assert(values(opened)[k] == values(encoding)[k]);
        assert(values(opened)[0] == values(encoding)[0]);
        lemma_first_power(value);
        lemma_power_of_same(opened[0], value, (k + 1) as nat);
    }
    if peers > 0 {
        assert(values(opened)[0] == values(encoding)[0]);
        lemma_first_power(value);
    }
}

/// What is left of a contribution without its pad is consistent.
pub proof fn lemma_opened_wf(history: History, peers: nat)
    requires
        history.exponential is Some,
        history.exponential->0.dc_exp@.len() == peers,
        all_wf(history.exponential->0.dc_exp@),
    ensures
        opened_exponential(history, peers).len() == peers,
        all_wf(opened_exponential(history, peers)),
{
    lemma_pad_sum_wf(history.keys, peers, peers, EXPONENTIAL_ROUND);
    lemma_unmasked_wf(history.exponential->0.dc_exp@, exponential_pad(history.keys, peers));
}

/// The sum of the opened contributions is consistent.
pub proof fn lemma_aggregate_wf(histories: Seq<Option<History>>, upto: nat, peers: nat)
    requires
        upto <= histories.len(),
        forall|i: int|
            0 <= i < histories.len() && histories[i] is Some && (
            #[trigger] histories[i])->0.exponential is Some
                ==> histories[i]->0.exponential->0.dc_exp@.len() == peers && all_wf(
                histories[i]->0.exponential->0.dc_exp@,
            ),
    ensures
        aggregate(histories, upto, peers).len() == peers,
        all_wf(aggregate(histories, upto, peers)),
    decreases upto,
{
    if upto == 0 {
        let blank = neutral::<FpVec>(peers);
        assert forall|i: int| 0 <= i < blank.len() implies (#[trigger] blank[i]).wf() by {
            Fp::lemma_with_repr(0);
        }
    } else {
        lemma_aggregate_wf(histories, (upto - 1) as nat, peers);
        match histories[upto - 1] {
            Some(history) => {
                if history.exponential is Some {
                    lemma_opened_wf(history, peers);
                    lemma_combined_wf(
                        aggregate(histories, (upto - 1) as nat, peers),
                        opened_exponential(history, peers),
                    );
                }
            },
            None => {},
        }
    }
}

/// Where every peer has contributed the encoding of a value, every element
/// of the sum of the opened contributions of the first peers is the power
/// sum of the values that these peers have encoded.
pub proof fn lemma_aggregate_is_power_sum(
    histories: Seq<Option<History>>,
    upto: nat,
    peers: nat,
    k: int,
)
    requires
        histories.len() == peers,
        upto <= peers,
        0 <= k < peers,
        forall|i: int|
            0 <= i < peers ==> (#[trigger] histories[i]) is Some && is_honest(
                histories[i]->0,
                peers,
            ),
    ensures
        aggregate(histories, upto, peers)[k].wf(),
        aggregate(histories, upto, peers)[k].same(
            power_sum(encoded_values(histories, peers), upto, (k + 1) as nat),
        ),
    decreases upto,
{
    let firsts = encoded_values(histories, peers);
    let e = (k + 1) as nat;
    assert forall|i: int|
        0 <= i < histories.len() && histories[i] is Some && (
        #[trigger] histories[i])->0.exponential is Some implies histories[i]->0.exponential->0.dc_exp@.len()
        == peers && all_wf(histories[i]->0.exponential->0.dc_exp@) by {
        assert(is_honest(histories[i]->0, peers));
    }
    lemma_aggregate_wf(histories, upto, peers);
    assert forall|i: int| 0 <= i < firsts.len() implies (#[trigger] firsts[i]).wf() by {
        assert(is_honest(histories[i]->0, peers));
        lemma_opened_wf(histories[i]->0, peers);
    }
    if upto == 0 {
        Fp::lemma_with_repr(0);
    } else {
        lemma_aggregate_is_power_sum(histories, (upto - 1) as nat, peers, k);
        lemma_aggregate_wf(histories, (upto - 1) as nat, peers);
        let history = histories[upto - 1]->0;
        assert(is_honest(history, peers));
        let opened = opened_exponential(history, peers);
        lemma_opened_wf(history, peers);
        let before = aggregate(histories, (upto - 1) as nat, peers);
        assert(aggregate(histories, upto, peers) == combined::<FpVec>(before, opened));
        let sum_before = power_sum(firsts, (upto - 1) as nat, e);
        let term = power(firsts[upto - 1], e);
        lemma_power_sum_wf(firsts, (upto - 1) as nat, e);
        lemma_power_wf(firsts[upto - 1], e);
        assert(opened[k].same(power(opened[0], e)));
        assert(firsts[upto - 1] == opened[0]);
        lemma_sum_value(before[k], opened[k]);
        lemma_sum_value(sum_before, term);
    }
}

/// Where every peer has contributed the encoding of a value, the power sums
/// that the run hands to the recovery are the power sums of these values:
/// the values are an answer that the run accepts.
pub proof fn lemma_values_are_recoverable(run: Run)
    requires
        run.wf(),
        forall|i: int|
            0 <= i < run.peers() ==> (#[trigger] run.histories[i]) is Some && is_honest(
                run.histories[i]->0,
                run.peers(),
            ),
    ensures
        solves(
            aggregate(run.histories, run.peers(), run.peers()),
            encoded_values(run.histories, run.peers()),
        ),
        !(Run { standings: run.judged_reveal(), ..run }).any_blamed() == !run.any_blamed(),
{
    let peers = run.peers();
    let sums = aggregate(run.histories, peers, peers);
    let firsts = encoded_values(run.histories, peers);
    assert forall|i: int|
        0 <= i < run.histories.len() && run.histories[i] is Some && (
        #[trigger] run.histories[i])->0.exponential is Some implies run.histories[i]->0.exponential->0.dc_exp@.len()
        == peers && all_wf(run.histories[i]->0.exponential->0.dc_exp@) by {
        assert(is_honest(run.histories[i]->0, peers));
    }
    lemma_aggregate_wf(run.histories, peers, peers);
    assert forall|i: int| 0 <= i < firsts.len() implies (#[trigger] firsts[i]).wf() by {
        assert(is_honest(run.histories[i]->0, peers));
        lemma_opened_wf(run.histories[i]->0, peers);
    }
    assert forall|k: int| 0 <= k < sums.len() implies (#[trigger] power_sum(
        firsts,
        firsts.len(),
        (k + 1) as nat,
    )).same(sums[k]) by {
        lemma_aggregate_is_power_sum(run.histories, peers, peers, k);
    }
    let judged = Run { standings: run.judged_reveal(), ..run };
    assert forall|i: int| 0 <= i < peers implies (#[trigger] judged.standings[i])
        == run.standings[i] by {
        assert(is_honest(run.histories[i]->0, peers));
    }
    assert(judged.standings =~= run.standings);
}

/// The slots of a payload, masked with the pads of the keys, open to the
/// payload again: the main contribution of a peer that does as it should
/// yields the payload of the peer.
pub proof fn lemma_masked_payload_opens(history: History, payload: Seq<Seq<u8>>, peers: nat)
    requires
        history.main is Some,
        history.main->0.dc_xor@.len() == payload.len(),
        forall|s: int|
            0 <= s < payload.len() ==> (#[trigger] history.main->0.dc_xor@[s])@ == combined::<
                XorVec<u8>,
            >(
                payload[s],
                pad_sum::<XorVec<u8>>(history.keys, peers, payload[s].len(), main_round(s)),
            ),
    ensures
        opened_main(history, peers) == payload,
{
    let opened = opened_main(history, peers);
    assert forall|s: int| 0 <= s < payload.len() implies opened[s] == payload[s] by {
        let slot = history.main->0.dc_xor@[s]@;
        let pad = pad_sum::<XorVec<u8>>(history.keys, peers, payload[s].len(), main_round(s));
        lemma_pad_sum_len::<XorVec<u8>>(history.keys, peers, payload[s].len(), main_round(s));
        assert(slot.len() == payload[s].len());
        crate::dc::xor::lemma_unmask_masked(payload[s], pad);
    }
    assert(opened =~= payload);
}

} // verus!
