//! The course of a run as a function on plain values.
//!
//! A run is driven by the messages of its peers alone.  Every round ends
//! when each peer of the run has delivered one item, be it a payload or the
//! marker of an invalid message, which also stands for a peer that timed
//! out.  This module says what a run becomes when an item arrives and when
//! a round ends; the run state machine implements it.

use super::history::{fresh_reveal, no_keys, with_revealed, RunHistory};
use super::unmask::{commitment_to, neutral, pad_sum, value_of, EXPONENTIAL_ROUND};
use super::{DcPhase, RunState};
use crate::dc::fp::{all_wf, FpVec};
use crate::dc::xor::XorVec;
use crate::dc::{combined, unmasked};
use crate::field::Fp;
use crate::io::IncomingPayload;
use crate::keys::{is_public_key, secp256k1_public_key_of, secp256k1_secret_key_valid};
use crate::messages::{DcExponential, DcMain, Payload};
use crate::solver::{power, solves};
use crate::wire::Layout;
use crate::{PeerIndex, SymmetricKey};
use vstd::prelude::*;

verus! {

/// The number of strikes at which a peer counts as disruptive.
pub const STRIKE_LIMIT: u8 = 2;

/// What a peer has sent in a run.
pub struct History {
    /// The exponential contribution.
    pub exponential: Option<DcExponential>,
    /// The main contribution.
    pub main: Option<DcMain>,
    /// The revealed keys.
    pub keys: Map<usize, Seq<u8>>,
}

impl View for RunHistory {
    type V = History;

    open spec fn view(&self) -> History {
        History { exponential: self.exponential_part(), main: self.main_part(), keys: self.keys() }
    }
}

/// How a peer stands in a run.
pub struct Standing {
    /// The number of rounds in which the peer delivered nothing of use.
    pub strikes: u8,
    /// The peer is identified as disruptive.
    pub blamed: bool,
    /// The peer has called for blame without evidence so far.
    pub accuser: bool,
    /// The peer has revealed the secret of its ephemeral key.
    pub opened: bool,
    /// The ephemeral key that the peer has announced for the next run.
    pub next_kepk: Option<Seq<u8>>,
    /// The payload of the peer, once its pads are taken off.
    pub output: Option<Seq<Seq<u8>>>,
    /// The confirmation of the peer.
    pub confirmation: Option<Seq<u8>>,
}

impl Standing {
    /// The standing of a peer at the start of a run.
    pub open spec fn fresh() -> Standing {
        Standing {
            strikes: 0,
            blamed: false,
            accuser: false,
            opened: false,
            next_kepk: None,
            output: None,
            confirmation: None,
        }
    }
}

/// What the driver of a run has to do after an item was applied.
pub enum Outcome {
    /// The item was not taken: it came from a peer that is not part of
    /// the run or that has delivered its item of this round already.
    /// Nothing has changed.
    Rejected,
    /// The round goes on.
    Waiting,
    /// The round has ended and the next round has begun.
    Advanced,
    /// The exponential DC-net has ended.  The values with the given power
    /// sums are to be recovered and handed to the run.
    Solve(Seq<Fp>),
    /// The run has ended with the exclusion of the given peers.
    Exclude(Seq<PeerIndex>),
    /// The run has ended successfully with the given payloads.
    Finished(Seq<Seq<Seq<u8>>>),
    /// The run cannot go on: the recovery of the values has failed in a
    /// way that no peer can be made responsible for.
    Fatal,
}

/// A run as plain values.
pub struct Run {
    /// The number of the run in its session.
    pub count: u32,
    /// The state of the run.
    pub state: RunState,
    /// The ephemeral public key of every peer of the run; `None` for a
    /// peer index that takes no part in the run.
    pub kepks: Seq<Option<Seq<u8>>>,
    /// The peers that have delivered their item of the current round.
    pub received: Set<usize>,
    /// What every peer of the run has sent.
    pub histories: Seq<Option<History>>,
    /// How every peer stands.
    pub standings: Seq<Standing>,
    /// The peers that made up the run when the exponential DC-net ended.
    pub peers_before_dc_exponential: Option<Set<usize>>,
    /// The peers that made up the run when the main DC-net ended.
    pub peers_before_dc_main: Option<Set<usize>>,
    /// The power sums whose values are being recovered.
    pub power_sums: Option<Seq<Fp>>,
    /// The values that were recovered.
    pub recovered: Option<Seq<Fp>>,
}

/// The number of keys among the first `upto`.
pub open spec fn count_keys(kepks: Seq<Option<Seq<u8>>>, upto: nat) -> nat
    decreases upto,
{
    if upto == 0 {
        0
    } else {
        count_keys(kepks, (upto - 1) as nat) + if kepks[upto - 1] is Some {
            1nat
        } else {
            0nat
        }
    }
}

/// The pad of the exponential contribution of a peer with the keys `keys`.
pub open spec fn exponential_pad(keys: Map<usize, Seq<u8>>, peers: nat) -> Seq<Fp> {
    pad_sum::<FpVec>(keys, peers, peers, EXPONENTIAL_ROUND)
}

/// The exponential contribution of a peer without its pad.
pub open spec fn opened_exponential(history: History, peers: nat) -> Seq<Fp> {
    unmasked::<FpVec>(history.exponential->0.dc_exp@, exponential_pad(history.keys, peers))
}

/// The keys that a peer has revealed yield the pad that it has committed
/// to.
pub open spec fn reveal_matches(history: History, peers: nat) -> bool {
    commitment_to(exponential_pad(history.keys, peers)) == history.exponential->0.commitment@
}

/// The exponential contribution of a peer, without its pad, is the
/// encoding of a value.
pub open spec fn is_encoding(vector: Seq<Fp>) -> bool {
    forall|k: int|
        0 <= k < vector.len() ==> (#[trigger] vector[k]).same(power(vector[0], (k + 1) as nat))
}

/// The round of the generator from which the pad of slot `slot` of the
/// main DC-net is derived.
pub open spec fn main_round(slot: int) -> u32 {
    (slot + 1) as u32
}

/// The main contribution of a peer without its pads.
pub open spec fn opened_main(history: History, peers: nat) -> Seq<Seq<u8>> {
    let slots = history.main->0.dc_xor@;
    Seq::new(
        slots.len(),
        |s: int|
            unmasked::<XorVec<u8>>(
                slots[s]@,
                pad_sum::<XorVec<u8>>(history.keys, peers, slots[s]@.len(), main_round(s)),
            ),
    )
}

/// `value` is among `values`.
pub open spec fn is_member(value: nat, values: Seq<Fp>) -> bool {
    exists|j: int| 0 <= j < values.len() && (#[trigger] values[j]).same(Fp::with_repr(value))
}

/// Every key of a reveal is for a peer index below `peers`.
pub open spec fn in_range(entries: Seq<(PeerIndex, SymmetricKey)>, peers: nat) -> bool {
    forall|i: int| 0 <= i < entries.len() ==> (#[trigger] entries[i]).0 < peers
}

/// The sum of the opened exponential contributions of the peers with an
/// index below `upto`.
pub open spec fn aggregate(histories: Seq<Option<History>>, upto: nat, peers: nat) -> Seq<Fp>
    decreases upto,
{
    if upto == 0 {
        neutral::<FpVec>(peers)
    } else {
        let before = aggregate(histories, (upto - 1) as nat, peers);
        match histories[upto - 1] {
            Some(history) => if history.exponential is Some {
                combined::<FpVec>(before, opened_exponential(history, peers))
            } else {
                before
            },
            None => before,
        }
    }
}

impl Run {
    /// The run at its start: the peers with an ephemeral key take part, and
    /// nothing has been sent yet.
    pub open spec fn start(count: u32, kepks: Seq<Option<Seq<u8>>>) -> Run {
        Run {
            count,
            state: RunState::DcProcess(DcPhase::Exponential),
            kepks,
            received: Set::empty(),
            histories: Seq::new(
                kepks.len(),
                |i: int|
                    if kepks[i] is Some {
                        Some(History { exponential: None, main: None, keys: no_keys() })
                    } else {
                        None
                    },
            ),
            standings: Seq::new(kepks.len(), |i: int| Standing::fresh()),
            peers_before_dc_exponential: None,
            peers_before_dc_main: None,
            power_sums: None,
            recovered: None,
        }
    }

    /// The number of peer indices of the run.
    pub open spec fn peers(self) -> nat {
        self.kepks.len()
    }

    /// The peer takes part in the run.
    pub open spec fn live(self, peer: int) -> bool {
        0 <= peer < self.peers() && self.kepks[peer] is Some
    }

    /// The run holds what belongs to each of its peers, and nothing for
    /// the others.
    pub open spec fn wf(self) -> bool {
        &&& self.peers() <= u32::MAX
        &&& self.histories.len() == self.peers()
        &&& self.standings.len() == self.peers()
        &&& forall|i: int| 0 <= i < self.peers() ==> (self.kepks[i] is Some <==> (
        #[trigger] self.histories[i]) is Some)
        &&& forall|i: int|
            0 <= i < self.peers() && self.histories[i] is Some ==> {
                let history = (#[trigger] self.histories[i])->0;
                &&& history.main is Some ==> history.exponential is Some
                &&& history.exponential is Some ==> history.exponential->0.dc_exp@.len()
                    == self.peers() && all_wf(history.exponential->0.dc_exp@)
                &&& history.main is Some ==> history.main->0.dc_xor@.len() < u32::MAX
            }
        &&& forall|i: usize| self.received.contains(i) ==> self.live(i as int)
        &&& self.recovered is Some ==> all_wf(self.recovered->0)
        &&& self.power_sums is Some ==> all_wf(self.power_sums->0) && self.power_sums->0.len()
            == self.peers()
    }

    /// Every peer of the run has delivered its item of the round.
    pub open spec fn round_complete(self) -> bool {
        forall|i: int| 0 <= i < self.peers() && self.live(i) ==> self.received.contains(i as usize)
    }

    /// Some peer is identified as disruptive.
    pub open spec fn any_blamed(self) -> bool {
        exists|i: int| 0 <= i < self.peers() && self.live(i) && (#[trigger] self.standings[i]).blamed
    }

    /// Some peer has called for blame.
    pub open spec fn any_accuser(self) -> bool {
        exists|i: int|
            0 <= i < self.peers() && self.live(i) && (#[trigger] self.standings[i]).accuser
    }

    /// The run waits for the recovered values.
    pub open spec fn awaits_solution(self) -> bool {
        self.state == RunState::DcReveal(DcPhase::Exponential) && self.power_sums is Some
            && self.recovered is None
    }

    /// The item is what the run expects of the peer in its state: the
    /// payload of the state, in a form that the run can work with.
    pub open spec fn expects(self, peer: int, incoming: IncomingPayload) -> bool {
        let history = self.histories[peer]->0;
        match (self.state, incoming) {
            (
                RunState::DcProcess(DcPhase::Exponential),
                IncomingPayload::Valid(Payload::DcExponential(p)),
            ) => p.dc_exp@.len() == self.peers() && all_wf(p.dc_exp@),
            (RunState::DcProcess(DcPhase::Main), IncomingPayload::Valid(Payload::DcMain(p))) => {
                history.exponential is Some && p.dc_xor@.len() < u32::MAX
            },
            (RunState::DcReveal(_), IncomingPayload::Valid(Payload::Reveal(p))) => {
                fresh_reveal(history.keys, p.keys@) && in_range(p.keys@, self.peers())
            },
            (RunState::Blame, IncomingPayload::Valid(Payload::Blame(p))) => {
                secp256k1_secret_key_valid(p.ke_sk@) && is_public_key(
                    secp256k1_public_key_of(p.ke_sk@),
                ) && Some(secp256k1_public_key_of(p.ke_sk@)) == self.kepks[peer]
            },
            (RunState::Confirm, IncomingPayload::Valid(Payload::Confirm(_))) => true,
            _ => false,
        }
    }

    /// An item that the run does not expect proves the peer disruptive at
    /// once where it is a reveal or comes in the state `Blame`: a double
    /// reveal, a reveal out of range and a refused disclosure are
    /// conclusive.
    pub open spec fn conclusive(self, incoming: IncomingPayload) -> bool {
        self.state == RunState::Blame || (self.state matches RunState::DcReveal(_)
            && incoming matches IncomingPayload::Valid(Payload::Reveal(_)))
    }

    /// The history of a peer after an expected payload was recorded.
    pub open spec fn recorded(history: History, incoming: IncomingPayload) -> History {
        match incoming {
            IncomingPayload::Valid(Payload::DcExponential(p)) => History {
                exponential: Some(p),
                ..history
            },
            IncomingPayload::Valid(Payload::DcMain(p)) => History { main: Some(p), ..history },
            IncomingPayload::Valid(Payload::Reveal(p)) => History {
                keys: with_revealed(history.keys, p.keys@),
                ..history
            },
            _ => history,
        }
    }

    /// The standing of a peer after an expected payload.
    pub open spec fn credited(standing: Standing, incoming: IncomingPayload) -> Standing {
        match incoming {
            IncomingPayload::Valid(Payload::DcMain(p)) => Standing {
                next_kepk: Some(p.ke_pk@),
                accuser: standing.accuser || !p.ok,
                ..standing
            },
            IncomingPayload::Valid(Payload::Blame(_)) => Standing { opened: true, ..standing },
            IncomingPayload::Valid(Payload::Confirm(p)) => Standing {
                confirmation: Some(p.data@),
                ..standing
            },
            _ => standing,
        }
    }

    /// The standing of a peer after an item that the run did not expect:
    /// a strike more, and blame at the second strike or where the item is
    /// conclusive.
    pub open spec fn struck(standing: Standing, conclusive: bool) -> Standing {
        let strikes: u8 = if standing.strikes < 255 {
            (standing.strikes + 1) as u8
        } else {
            standing.strikes
        };
        Standing {
            strikes,
            blamed: standing.blamed || conclusive || strikes >= STRIKE_LIMIT,
            ..standing
        }
    }

    /// The item is taken: the run does not wait for recovered values, and
    /// the item comes from a peer of the run that has not delivered its
    /// item of the round yet.
    pub open spec fn takes(self, peer: PeerIndex) -> bool {
        !self.awaits_solution() && self.live(peer as int) && !self.received.contains(
            peer as usize,
        )
    }

    /// The run after the item of a peer was noted, before the end of the
    /// round is looked at.
    pub open spec fn noted(self, peer: PeerIndex, incoming: IncomingPayload) -> Run {
        let i = peer as int;
        if !self.takes(peer) {
            self
        } else if self.expects(i, incoming) {
            Run {
                received: self.received.insert(peer as usize),
                histories: self.histories.update(
                    i,
                    Some(Self::recorded(self.histories[i]->0, incoming)),
                ),
                standings: self.standings.update(i, Self::credited(self.standings[i], incoming)),
                ..self
            }
        } else {
            Run {
                received: self.received.insert(peer as usize),
                standings: self.standings.update(
                    i,
                    Self::struck(self.standings[i], self.conclusive(incoming)),
                ),
                ..self
            }
        }
    }

    /// The standings when the keys of the exponential DC-net are revealed:
    /// a peer whose keys do not yield the pad that it has committed to is
    /// disruptive.
    pub open spec fn judged_reveal(self) -> Seq<Standing> {
        Seq::new(
            self.peers(),
            |i: int|
                if self.histories[i] is Some && self.histories[i]->0.exponential is Some
                    && !reveal_matches(self.histories[i]->0, self.peers()) {
                    Standing { blamed: true, ..self.standings[i] }
                } else {
                    self.standings[i]
                },
        )
    }

    /// The standings when no values have the power sums: a peer whose
    /// contribution without its pad is not the encoding of a value is
    /// disruptive.
    pub open spec fn judged_encoding(self) -> Seq<Standing> {
        Seq::new(
            self.peers(),
            |i: int|
                if self.histories[i] is Some && self.histories[i]->0.exponential is Some
                    && !is_encoding(opened_exponential(self.histories[i]->0, self.peers())) {
                    Standing { blamed: true, ..self.standings[i] }
                } else {
                    self.standings[i]
                },
        )
    }

    /// The values that were recovered; none before the recovery.
    pub open spec fn recovered_values(self) -> Seq<Fp> {
        match self.recovered {
            Some(values) => values,
            None => Seq::empty(),
        }
    }

    /// The standings when the keys of the main DC-net are revealed: the
    /// payload of every peer is opened, and a peer whose payload does not
    /// stand for one of the recovered values is disruptive.
    pub open spec fn judged_main(self) -> Seq<Standing> {
        Seq::new(
            self.peers(),
            |i: int|
                if self.histories[i] is Some && self.histories[i]->0.main is Some {
                    let output = opened_main(self.histories[i]->0, self.peers());
                    Standing {
                        output: Some(output),
                        blamed: self.standings[i].blamed || !is_member(
                            value_of(output),
                            self.recovered_values(),
                        ),
                        ..self.standings[i]
                    }
                } else {
                    self.standings[i]
                },
        )
    }

    /// The standings at the end of the confirmation: a peer that has not
    /// confirmed is disruptive.
    pub open spec fn judged_confirm(self) -> Seq<Standing> {
        Seq::new(
            self.peers(),
            |i: int|
                if self.live(i) && self.standings[i].confirmation is None {
                    Standing { blamed: true, ..self.standings[i] }
                } else {
                    self.standings[i]
                },
        )
    }

    /// The peers with an index below `upto` that are to be excluded, in
    /// ascending order: the disruptive ones, or the accusers where
    /// `accusers` says so.
    pub open spec fn culprits(self, upto: nat, accusers: bool) -> Seq<PeerIndex>
        decreases upto,
    {
        if upto == 0 {
            Seq::empty()
        } else {
            let before = self.culprits((upto - 1) as nat, accusers);
            let standing = self.standings[upto - 1];
            if self.live(upto - 1) && (if accusers {
                standing.accuser
            } else {
                standing.blamed
            }) {
                before.push((upto - 1) as u32)
            } else {
                before
            }
        }
    }

    /// The peers that are excluded at the end of the run: the disruptive
    /// ones, and where nobody proved disruptive, those who called for
    /// blame.
    pub open spec fn excluded(self) -> Seq<PeerIndex> {
        self.culprits(self.peers(), !self.any_blamed())
    }

    /// The opened payloads of the peers with an index below `upto`, in the
    /// order of the peers.
    pub open spec fn outputs(self, upto: nat) -> Seq<Seq<Seq<u8>>>
        decreases upto,
    {
        if upto == 0 {
            Seq::empty()
        } else {
            let before = self.outputs((upto - 1) as nat);
            match self.standings[upto - 1].output {
                Some(output) => if self.live(upto - 1) {
                    before.push(output)
                } else {
                    before
                },
                None => before,
            }
        }
    }

    /// The ephemeral keys of the next run: a peer that is excluded has
    /// none, any other peer of the run has the key that it has announced
    /// for the next run, or the key of this run if it has announced none.
    pub open spec fn next_kepks(self, excluded: Seq<bool>) -> Seq<Option<Seq<u8>>> {
        Seq::new(
            self.kepks.len(),
            |i: int|
                if excluded[i] {
                    None
                } else if self.kepks[i] is Some && self.standings[i].next_kepk is Some {
                    self.standings[i].next_kepk
                } else {
                    self.kepks[i]
                },
        )
    }

    /// The run at the start of the next round in the state `state`.
    pub open spec fn turned(self, state: RunState) -> Run {
        Run { state, received: Set::empty(), ..self }
    }

    /// The run and what its driver has to do when a round has ended.
    pub open spec fn closed(self) -> (Run, Outcome) {
        match self.state {
            RunState::DcProcess(DcPhase::Exponential) => {
                let run = Run { peers_before_dc_exponential: Some(self.received), ..self };
                if run.any_blamed() {
                    (run.turned(RunState::Blame), Outcome::Advanced)
                } else {
                    (run.turned(RunState::DcReveal(DcPhase::Exponential)), Outcome::Advanced)
                }
            },
            RunState::DcReveal(DcPhase::Exponential) => {
                let run = Run { standings: self.judged_reveal(), ..self };
                if run.any_blamed() {
                    (run.turned(RunState::Blame), Outcome::Advanced)
                } else {
                    let sums = aggregate(self.histories, self.peers(), self.peers());
                    (
                        Run { power_sums: Some(sums), ..run }.turned(
                            RunState::DcReveal(DcPhase::Exponential),
                        ),
                        Outcome::Solve(sums),
                    )
                }
            },
            RunState::DcProcess(DcPhase::Main) => {
                let run = Run { peers_before_dc_main: Some(self.received), ..self };
                if run.any_blamed() || run.any_accuser() {
                    (run.turned(RunState::Blame), Outcome::Advanced)
                } else {
                    (run.turned(RunState::DcReveal(DcPhase::Main)), Outcome::Advanced)
                }
            },
            RunState::DcReveal(DcPhase::Main) => {
                let run = Run { standings: self.judged_main(), ..self };
                if run.any_blamed() {
                    (run.turned(RunState::Blame), Outcome::Advanced)
                } else {
                    (run.turned(RunState::Confirm), Outcome::Advanced)
                }
            },
            RunState::Blame => (self.turned(RunState::Blame), Outcome::Exclude(self.excluded())),
            RunState::Confirm => {
                let run = Run { standings: self.judged_confirm(), ..self };
                if run.any_blamed() {
                    (run.turned(RunState::Confirm), Outcome::Exclude(run.excluded()))
                } else {
                    (
                        run.turned(RunState::Confirm),
                        Outcome::Finished(run.outputs(run.peers())),
                    )
                }
            },
        }
    }

    /// The run and what its driver has to do after an item of a peer was
    /// applied.  An item that is not taken changes nothing.  Any other
    /// item is noted, and where it is the last item of the round the round
    /// is ended.
    pub open spec fn applied(self, peer: PeerIndex, incoming: IncomingPayload) -> (Run, Outcome) {
        if !self.takes(peer) {
            (self, Outcome::Rejected)
        } else {
            let run = self.noted(peer, incoming);
            if run.round_complete() {
                run.closed()
            } else {
                (run, Outcome::Waiting)
            }
        }
    }

    /// The run and what its driver has to do after the recovery of the
    /// values has answered.  Values are taken only if they have the power
    /// sums: the run then goes on to the main DC-net.  Where there are no
    /// such values, the peers whose contributions are no encodings of
    /// values are disruptive, and the run goes on to `Blame`.  Values that
    /// do not have the power sums, and the answer that there are no values
    /// where every contribution is the encoding of one, are failures of the
    /// recovery: the run stays where it is.
    pub open spec fn solved(self, solution: Option<Seq<Fp>>) -> (Run, Outcome) {
        if !self.awaits_solution() {
            (self, Outcome::Rejected)
        } else {
            match solution {
                Some(values) => if solves(self.power_sums->0, values) {
                    (
                        Run {
                            recovered: Some(values),
                            state: RunState::DcProcess(DcPhase::Main),
                            ..self
                        },
                        Outcome::Advanced,
                    )
                } else {
                    (self, Outcome::Fatal)
                },
                None => {
                    let run = Run { standings: self.judged_encoding(), ..self };
                    if run.any_blamed() {
                        (Run { state: RunState::Blame, ..run }, Outcome::Advanced)
                    } else {
                        (run, Outcome::Fatal)
                    }
                },
            }
        }
    }

    /// A well-formed run stays well-formed when an item is noted.
    pub proof fn lemma_noted_wf(self, peer: PeerIndex, incoming: IncomingPayload)
        requires
            self.wf(),
            self.takes(peer),
        ensures
            self.noted(peer, incoming).wf(),
    {
        let run = self.noted(peer, incoming);
        let p = peer as int;
        assert forall|i: int| 0 <= i < run.peers() implies (run.kepks[i] is Some <==> (
        #[trigger] run.histories[i]) is Some) by {
            assert(self.kepks[i] is Some <==> self.histories[i] is Some);
        }
        assert forall|i: int| 0 <= i < run.peers() && run.histories[i] is Some implies {
            let history = (#[trigger] run.histories[i])->0;
            &&& history.main is Some ==> history.exponential is Some
            &&& history.exponential is Some ==> history.exponential->0.dc_exp@.len() == run.peers()
                && all_wf(history.exponential->0.dc_exp@)
            &&& history.main is Some ==> history.main->0.dc_xor@.len() < u32::MAX
        } by {
            let before = self.histories[i]->0;
            assert(self.histories[i] is Some);
            if i == p && self.expects(p, incoming) {
                assert(run.histories[i]->0 == Self::recorded(before, incoming));
            } else {
                assert(run.histories[i] == self.histories[i]);
            }
        }
        assert(run.kepks == self.kepks);
        assert(run.received == self.received.insert(peer as usize));
        assert(peer as usize as int == peer as int);
        assert forall|i: usize| run.received.contains(i) implies run.live(i as int) by {
            if i != peer as usize {
                assert(self.received.contains(i));
                assert(self.live(i as int));
            } else {
                assert(self.live(peer as int));
            }
        }
    }

    /// A run only ever moves forward: an item leaves the run in its state
    /// or brings it to a state that follows.
    pub proof fn lemma_applied_moves_forward(self, peer: PeerIndex, incoming: IncomingPayload)
        ensures
            self.applied(peer, incoming).0.state == self.state || self.state.follows(
                self.applied(peer, incoming).0.state,
            ),
    {
    }

    /// A run only ever moves forward: the answer of the recovery leaves the
    /// run in its state or brings it to a state that follows.
    pub proof fn lemma_solved_moves_forward(self, solution: Option<Seq<Fp>>)
        ensures
            self.solved(solution).0.state == self.state || self.state.follows(
                self.solved(solution).0.state,
            ),
    {
    }

    /// A second item of a peer in a round is rejected and leaves the run
    /// as it is.
    pub proof fn lemma_duplicate_rejected(
        self,
        peer: PeerIndex,
        first: IncomingPayload,
        second: IncomingPayload,
    )
        requires
            self.wf(),
            self.applied(peer, first).1 == Outcome::Waiting,
        ensures
            self.applied(peer, first).0.applied(peer, second) == (
                self.applied(peer, first).0,
                Outcome::Rejected,
            ),
    {
    }

    /// A run that differs from a well-formed run in its state, its round
    /// and its standings only is well-formed, as long as it holds a
    /// standing for every peer and its round holds no new peer.
    pub proof fn lemma_wf_frame(self, next: Run)
        requires
            self.wf(),
            next.kepks == self.kepks,
            next.histories == self.histories,
            next.standings.len() == self.standings.len(),
            next.received.subset_of(self.received),
            next.recovered is Some ==> all_wf(next.recovered->0),
            next.power_sums is Some ==> all_wf(next.power_sums->0) && next.power_sums->0.len()
                == self.peers(),
        ensures
            next.wf(),
    {
        assert forall|i: int| 0 <= i < next.peers() implies (next.kepks[i] is Some <==> (
        #[trigger] next.histories[i]) is Some) by {
            assert(self.kepks[i] is Some <==> self.histories[i] is Some);
        }
        assert forall|i: usize| next.received.contains(i) implies next.live(i as int) by {
            assert(self.received.contains(i));
            assert(self.live(i as int));
        }
    }

    /// A payload is meaningful only in the state that awaits its variant:
    /// whatever the run expects is a valid payload of the variant that the
    /// state of the run awaits.
    pub proof fn lemma_expects_awaited(self, peer: int, incoming: IncomingPayload)
        requires
            self.expects(peer, incoming),
        ensures
            incoming matches IncomingPayload::Valid(payload) && payload.kind_of()
                == self.state.awaits(),
    {
    }

    /// An item that the run does not expect is never recorded: it leaves
    /// the histories as they are and costs its peer a strike.
    pub proof fn lemma_unexpected_is_a_strike(self, peer: PeerIndex, incoming: IncomingPayload)
        requires
            self.wf(),
            self.takes(peer),
            !self.expects(peer as int, incoming),
        ensures
            self.noted(peer, incoming).histories == self.histories,
            self.noted(peer, incoming).standings[peer as int] == Self::struck(
                self.standings[peer as int],
                self.conclusive(incoming),
            ),
            self.standings[peer as int].strikes < 255 ==> self.noted(
                peer,
                incoming,
            ).standings[peer as int].strikes == self.standings[peer as int].strikes + 1,
    {
    }
}

} // verus!
