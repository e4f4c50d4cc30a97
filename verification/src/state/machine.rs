//! The run state machine.

use super::history::RunHistory;
use super::peer_set::PeerSet;
use super::run::{
    aggregate, in_range, is_encoding, is_member, opened_exponential, opened_main, reveal_matches,
    History, Outcome, Run, Standing, STRIKE_LIMIT,
};
use super::unmask::{
    neutral, open_exponential, open_main, payload_value, reveal_is_honest, value_of,
};
use super::{DcPhase, RunState};
use crate::dc::fp::{all_consistent, all_wf, FpVec};
use crate::dc::xor::copy_bytes;
use crate::dc::{combined, DcGroup, Group};
use crate::field::Fp;
use crate::io::IncomingPayload;
use crate::messages::{DcExponential, Payload, PublicKey, Reveal};
use crate::solver::Solver;
use crate::wire::{lemma_bytes_model, models, Layout};
use crate::PeerIndex;
use vstd::prelude::*;

verus! {

/// How a peer stands in a run.
#[derive(Debug)]
pub struct PeerStanding {
    strikes: u8,
    blamed: bool,
    accuser: bool,
    opened: bool,
    next_kepk: Option<PublicKey>,
    output: Option<Vec<Vec<u8>>>,
    confirmation: Option<Vec<u8>>,
}

impl View for PeerStanding {
    type V = Standing;

    closed spec fn view(&self) -> Standing {
        Standing {
            strikes: self.strikes,
            blamed: self.blamed,
            accuser: self.accuser,
            opened: self.opened,
            next_kepk: match self.next_kepk {
                Some(key) => Some(key@),
                None => None,
            },
            output: match self.output {
                Some(output) => Some(output.model()),
                None => None,
            },
            confirmation: match self.confirmation {
                Some(data) => Some(data@),
                None => None,
            },
        }
    }
}

impl PeerStanding {
    fn new() -> (standing: PeerStanding)
        ensures
            standing@ == Standing::fresh(),
    {
        PeerStanding {
            strikes: 0,
            blamed: false,
            accuser: false,
            opened: false,
            next_kepk: None,
            output: None,
            confirmation: None,
        }
    }

    /// Notes what an expected payload says of the peer.
    fn credit(&mut self, payload: &Payload)
        ensures
            final(self)@ == Run::credited(old(self)@, IncomingPayload::Valid(*payload)),
    {
        match payload {
            Payload::DcMain(p) => {
                self.next_kepk = Some(p.ke_pk);
                if !p.ok {
                    self.accuser = true;
                }
            },
            Payload::Blame(_) => {
                self.opened = true;
            },
            Payload::Confirm(p) => {
                self.confirmation = Some(copy_bytes(p.data.as_slice()));
            },
            _ => {},
        }
    }

    /// Notes an item that the run did not expect.
    fn strike(&mut self, conclusive: bool)
        ensures
            final(self)@ == Run::struck(old(self)@, conclusive),
    {
        if self.strikes < 255 {
            self.strikes = self.strikes + 1;
        }
        if conclusive || self.strikes >= STRIKE_LIMIT {
            self.blamed = true;
        }
    }

    /// Marks the peer as disruptive.
    fn blame(&mut self)
        ensures
            final(self)@ == (Standing { blamed: true, ..old(self)@ }),
    {
        self.blamed = true;
    }

    /// Notes the opened payload of the peer, and marks the peer as
    /// disruptive unless the payload stands for a recovered value.
    fn set_output(&mut self, output: Vec<Vec<u8>>, member: bool)
        ensures
            final(self)@ == (Standing {
                output: Some(output.model()),
                blamed: old(self)@.blamed || !member,
                ..old(self)@
            }),
    {
        self.output = Some(output);
        if !member {
            self.blamed = true;
        }
    }

    /// The number of rounds in which the peer delivered nothing of use.
    pub fn strikes(&self) -> (n: u8)
        ensures
            n == self@.strikes,
    {
        self.strikes
    }

    /// Whether the peer is identified as disruptive.
    pub fn is_blamed(&self) -> (r: bool)
        ensures
            r == self@.blamed,
    {
        self.blamed
    }

    /// Whether the peer has called for blame.
    pub fn is_accuser(&self) -> (r: bool)
        ensures
            r == self@.accuser,
    {
        self.accuser
    }

    /// Whether the peer has revealed the secret of its ephemeral key.
    pub fn has_opened(&self) -> (r: bool)
        ensures
            r == self@.opened,
    {
        self.opened
    }

    /// The payload of the peer, once its pads are taken off.
    pub fn output(&self) -> (output: &Option<Vec<Vec<u8>>>)
        ensures
            match *output {
                Some(slots) => self@.output == Some(slots.model()),
                None => self@.output is None,
            },
    {
        &self.output
    }

    /// The confirmation of the peer.
    pub fn confirmation(&self) -> (data: &Option<Vec<u8>>)
        ensures
            match *data {
                Some(bytes) => self@.confirmation == Some(bytes@),
                None => self@.confirmation is None,
            },
    {
        &self.confirmation
    }

    /// The ephemeral key that the peer has announced for the next run.
    pub fn next_kepk(&self) -> (key: Option<PublicKey>)
        ensures
            key is Some == self@.next_kepk is Some,
            key is Some ==> key->0@ == self@.next_kepk->0,
    {
        self.next_kepk
    }
}

/// What the driver of a run has to do after an item was applied.
#[derive(Debug)]
pub enum Step {
    /// The item was not taken.  Nothing has changed.
    Rejected,
    /// The round goes on.
    Waiting,
    /// The round has ended and the next round has begun.
    Advanced,
    /// The values with the given power sums are to be recovered and
    /// handed to the run.
    Solve(Vec<Fp>),
    /// The run has ended with the exclusion of the given peers.
    Exclude(Vec<PeerIndex>),
    /// The run has ended successfully with the given payloads.
    Finished(Vec<Vec<Vec<u8>>>),
    /// The recovery of the values has failed.
    Fatal,
}

impl View for Step {
    type V = Outcome;

    open spec fn view(&self) -> Outcome {
        match self {
            Step::Rejected => Outcome::Rejected,
            Step::Waiting => Outcome::Waiting,
            Step::Advanced => Outcome::Advanced,
            Step::Solve(sums) => Outcome::Solve(sums@),
            Step::Exclude(peers) => Outcome::Exclude(peers@),
            Step::Finished(outputs) => Outcome::Finished(outputs.model()),
            Step::Fatal => Outcome::Fatal,
        }
    }
}

/// An ephemeral key as a plain value.
pub open spec fn key_view(kepk: Option<PublicKey>) -> Option<Seq<u8>> {
    match kepk {
        Some(key) => Some(key@),
        None => None,
    }
}

/// The ephemeral keys as plain values.
pub open spec fn key_views(kepks: Seq<Option<PublicKey>>) -> Seq<Option<Seq<u8>>> {
    Seq::new(kepks.len(), |i: int| key_view(kepks[i]))
}

/// The histories as plain values.
pub open spec fn history_views(histories: Seq<Option<RunHistory>>) -> Seq<Option<History>> {
    Seq::new(
        histories.len(),
        |i: int|
            match histories[i] {
                Some(history) => Some(history@),
                None => None,
            },
    )
}

/// The standings as plain values.
pub open spec fn standing_views(standings: Seq<PeerStanding>) -> Seq<Standing> {
    Seq::new(standings.len(), |i: int| standings[i]@)
}

/// Whether `value` is among `values`.
fn contains_value(values: &[Fp], value: Fp) -> (r: bool)
    requires
        all_wf(values@),
        value.wf(),
    ensures
        r == is_member(value.repr(), values@),
{
    proof {
        Fp::lemma_with_repr(value.repr());
        Fp::lemma_repr_injective(value, Fp::with_repr(value.repr()));
    }
    let mut j: usize = 0;
    while j < values.len()
        invariant
            j <= values@.len(),
            all_wf(values@),
            value.wf(),
            Fp::with_repr(value.repr()) == value,
            forall|k: int| 0 <= k < j ==> !(#[trigger] values@[k]).same(value),
        decreases values@.len() - j,
    {
        if values[j].equals(&value) {
            return true;
        }
        j += 1;
    }
    false
}

/// Marks the peers whose revealed keys do not yield the pad that they have
/// committed to.
fn judge_reveal(histories: &Vec<Option<RunHistory>>, standings: &mut Vec<PeerStanding>, peers: usize)
    requires
        histories@.len() == peers,
        old(standings)@.len() == peers,
    ensures
        final(standings)@.len() == peers,
        forall|i: int|
            0 <= i < peers ==> (#[trigger] final(standings)@[i])@ == (if histories@[i] is Some
                && histories@[i]->0@.exponential is Some && !reveal_matches(
                histories@[i]->0@,
                peers as nat,
            ) {
                Standing { blamed: true, ..old(standings)@[i]@ }
            } else {
                old(standings)@[i]@
            }),
{
    let mut i: usize = 0;
    while i < peers
        invariant
            i <= peers,
            histories@.len() == peers,
            standings@.len() == peers,
            forall|j: int| i <= j < peers ==> standings@[j] == old(standings)@[j],
            forall|j: int|
                0 <= j < i ==> (#[trigger] standings@[j])@ == (if histories@[j] is Some
                    && histories@[j]->0@.exponential is Some && !reveal_matches(
                    histories@[j]->0@,
                    peers as nat,
                ) {
                    Standing { blamed: true, ..old(standings)@[j]@ }
                } else {
                    old(standings)@[j]@
                }),
        decreases peers - i,
    {
        match &histories[i] {
            Some(history) => {
                if history.dc_exponential().is_some() && !reveal_is_honest(history, peers) {
                    standings[i].blame();
                }
            },
            None => {},
        }
        i += 1;
    }
}

/// Marks the peers whose exponential contribution, without its pad, is not
/// the encoding of a value.
fn judge_encoding(histories: &Vec<Option<RunHistory>>, standings: &mut Vec<PeerStanding>, peers: usize)
    requires
        histories@.len() == peers,
        old(standings)@.len() == peers,
        forall|i: int|
            0 <= i < peers && histories@[i] is Some && (#[trigger] histories@[i])->0@.exponential
                is Some ==> histories@[i]->0@.exponential->0.dc_exp@.len() == peers && all_wf(
                histories@[i]->0@.exponential->0.dc_exp@,
            ),
    ensures
        final(standings)@.len() == peers,
        forall|i: int|
            0 <= i < peers ==> (#[trigger] final(standings)@[i])@ == (if histories@[i] is Some
                && histories@[i]->0@.exponential is Some && !is_encoding(
                opened_exponential(histories@[i]->0@, peers as nat),
            ) {
                Standing { blamed: true, ..old(standings)@[i]@ }
            } else {
                old(standings)@[i]@
            }),
{
    let mut i: usize = 0;
    while i < peers
        invariant
            i <= peers,
            histories@.len() == peers,
            standings@.len() == peers,
            forall|j: int|
                0 <= j < peers && histories@[j] is Some && (
                #[trigger] histories@[j])->0@.exponential is Some
                    ==> histories@[j]->0@.exponential->0.dc_exp@.len() == peers && all_wf(
                    histories@[j]->0@.exponential->0.dc_exp@,
                ),
            forall|j: int| i <= j < peers ==> standings@[j] == old(standings)@[j],
            forall|j: int|
                0 <= j < i ==> (#[trigger] standings@[j])@ == (if histories@[j] is Some
                    && histories@[j]->0@.exponential is Some && !is_encoding(
                    opened_exponential(histories@[j]->0@, peers as nat),
                ) {
                    Standing { blamed: true, ..old(standings)@[j]@ }
                } else {
                    old(standings)@[j]@
                }),
        decreases peers - i,
    {
        match &histories[i] {
            Some(history) => {
                if history.dc_exponential().is_some() {
                    let opened = open_exponential(history, peers);
                    if !Solver::is_power_encoding(opened.as_slice()) {
                        standings[i].blame();
                    }
                }
            },
            None => {},
        }
        i += 1;
    }
}

/// Opens the payload of every peer and marks the peers whose payload does
/// not stand for one of the recovered values.
fn judge_main(
    histories: &Vec<Option<RunHistory>>,
    standings: &mut Vec<PeerStanding>,
    recovered: &Vec<Fp>,
    peers: usize,
)
    requires
        histories@.len() == peers,
        old(standings)@.len() == peers,
        all_wf(recovered@),
        forall|i: int|
            0 <= i < peers && histories@[i] is Some && (#[trigger] histories@[i])->0@.main is Some
                ==> histories@[i]->0@.main->0.dc_xor@.len() < u32::MAX,
    ensures
        final(standings)@.len() == peers,
        forall|i: int|
            0 <= i < peers ==> (#[trigger] final(standings)@[i])@ == (if histories@[i] is Some
                && histories@[i]->0@.main is Some {
                let output = opened_main(histories@[i]->0@, peers as nat);
                Standing {
                    output: Some(output),
                    blamed: old(standings)@[i]@.blamed || !is_member(value_of(output), recovered@),
                    ..old(standings)@[i]@
                }
            } else {
                old(standings)@[i]@
            }),
{
    let mut i: usize = 0;
    while i < peers
        invariant
            i <= peers,
            histories@.len() == peers,
            standings@.len() == peers,
            all_wf(recovered@),
            forall|j: int|
                0 <= j < peers && histories@[j] is Some && (#[trigger] histories@[j])->0@.main
                    is Some ==> histories@[j]->0@.main->0.dc_xor@.len() < u32::MAX,
            forall|j: int| i <= j < peers ==> standings@[j] == old(standings)@[j],
            forall|j: int|
                0 <= j < i ==> (#[trigger] standings@[j])@ == (if histories@[j] is Some
                    && histories@[j]->0@.main is Some {
                    let output = opened_main(histories@[j]->0@, peers as nat);
                    Standing {
                        output: Some(output),
                        blamed: old(standings)@[j]@.blamed || !is_member(
                            value_of(output),
                            recovered@,
                        ),
                        ..old(standings)@[j]@
                    }
                } else {
                    old(standings)@[j]@
                }),
        decreases peers - i,
    {
        match &histories[i] {
            Some(history) => {
                if history.dc_main().is_some() {
                    let output = open_main(history, peers);
                    let value = payload_value(&output);
                    let member: bool = contains_value(recovered.as_slice(), value);
                    standings[i].set_output(output, member);
                }
            },
            None => {},
        }
        i += 1;
    }
}

/// Marks the peers that have not confirmed.
fn judge_confirm(kepks: &Vec<Option<PublicKey>>, standings: &mut Vec<PeerStanding>, peers: usize)
    requires
        kepks@.len() == peers,
        old(standings)@.len() == peers,
    ensures
        final(standings)@.len() == peers,
        forall|i: int|
            0 <= i < peers ==> (#[trigger] final(standings)@[i])@ == (if kepks@[i] is Some && old(
                standings,
            )@[i]@.confirmation is None {
                Standing { blamed: true, ..old(standings)@[i]@ }
            } else {
                old(standings)@[i]@
            }),
{
    let mut i: usize = 0;
    while i < peers
        invariant
            i <= peers,
            kepks@.len() == peers,
            standings@.len() == peers,
            forall|j: int| i <= j < peers ==> standings@[j] == old(standings)@[j],
            forall|j: int|
                0 <= j < i ==> (#[trigger] standings@[j])@ == (if kepks@[j] is Some && old(
                    standings,
                )@[j]@.confirmation is None {
                    Standing { blamed: true, ..old(standings)@[j]@ }
                } else {
                    old(standings)@[j]@
                }),
        decreases peers - i,
    {
        if kepks[i].is_some() && standings[i].confirmation.is_none() {
            standings[i].blame();
        }
        i += 1;
    }
}

/// A copy of a list of byte vectors.
fn copy_slots(slots: &Vec<Vec<u8>>) -> (copy: Vec<Vec<u8>>)
    ensures
        copy.model() == slots.model(),
{
    let mut copy: Vec<Vec<u8>> = Vec::new();
    let mut i: usize = 0;
    while i < slots.len()
        invariant
            i <= slots@.len(),
            copy@.len() == i,
            forall|j: int| 0 <= j < i ==> (#[trigger] copy@[j])@ == slots@[j]@,
        decreases slots@.len() - i,
    {
        copy.push(copy_bytes(slots[i].as_slice()));
        i += 1;
    }
    proof {
        assert forall|j: int| 0 <= j < copy@.len() implies copy.model()[j] == slots.model()[j] by {
            lemma_bytes_model(copy@[j]);
            lemma_bytes_model(slots@[j]);
        }
        assert(copy.model() =~= slots.model());
    }
    copy
}

/// Sums up the opened exponential contributions.
fn sum_contributions(histories: &Vec<Option<RunHistory>>, peers: usize) -> (sums: FpVec)
    requires
        histories@.len() == peers,
        forall|i: int|
            0 <= i < peers && histories@[i] is Some && (#[trigger] histories@[i])->0@.exponential
                is Some ==> histories@[i]->0@.exponential->0.dc_exp@.len() == peers && all_wf(
                histories@[i]->0@.exponential->0.dc_exp@,
            ),
    ensures
        sums@ == aggregate(history_views(histories@), peers as nat, peers as nat),
        sums@.len() == peers,
        all_wf(sums@),
{
    let mut sums = FpVec::zero(peers);
    assert(sums@ =~= neutral::<FpVec>(peers as nat));
    let mut i: usize = 0;
    while i < peers
        invariant
            i <= peers,
            histories@.len() == peers,
            forall|j: int|
                0 <= j < peers && histories@[j] is Some && (
                #[trigger] histories@[j])->0@.exponential is Some
                    ==> histories@[j]->0@.exponential->0.dc_exp@.len() == peers && all_wf(
                    histories@[j]->0@.exponential->0.dc_exp@,
                ),
            sums@.len() == peers,
            all_wf(sums@),
            sums@ == aggregate(history_views(histories@), i as nat, peers as nat),
        decreases peers - i,
    {
        match &histories[i] {
            Some(history) => {
                if history.dc_exponential().is_some() {
                    let opened = open_exponential(history, peers);
                    let ghost before = sums@;
                    sums = sums.combine(opened);
                    assert(sums@ =~= combined::<FpVec>(before, opened@));
                }
            },
            None => {},
        }
        i += 1;
    }
    sums
}

/// The state of a run.  It is cleared after the run.
#[derive(Debug)]
pub struct RunStateMachine {
    count: u32,
    state: RunState,
    kepks: Vec<Option<PublicKey>>,
    received: PeerSet,
    // Blame data
    histories: Vec<Option<RunHistory>>,
    peers_before_dc_exponential: Option<PeerSet>,
    peers_before_dc_main: Option<PeerSet>,
    standings: Vec<PeerStanding>,
    // The exponential DC-net
    power_sums: Option<Vec<Fp>>,
    recovered: Option<Vec<Fp>>,
}

impl View for RunStateMachine {
    type V = Run;

    closed spec fn view(&self) -> Run {
        Run {
            count: self.count,
            state: self.state,
            kepks: key_views(self.kepks@),
            received: self.received@,
            histories: history_views(self.histories@),
            standings: standing_views(self.standings@),
            peers_before_dc_exponential: match self.peers_before_dc_exponential {
                Some(peers) => Some(peers@),
                None => None,
            },
            peers_before_dc_main: match self.peers_before_dc_main {
                Some(peers) => Some(peers@),
                None => None,
            },
            power_sums: match self.power_sums {
                Some(sums) => Some(sums@),
                None => None,
            },
            recovered: match self.recovered {
                Some(values) => Some(values@),
                None => None,
            },
        }
    }
}

impl RunStateMachine {
    /// The machine holds a well-formed run.
    pub open spec fn wf(&self) -> bool {
        self@.wf()
    }

    /// The machine of run number `count` for the peers with the ephemeral
    /// keys `kepks`.  A peer index without key takes no part in the run.
    pub fn new(count: u32, kepks: Vec<Option<PublicKey>>) -> (machine: Self)
        requires
            kepks@.len() <= u32::MAX,
        ensures
            machine.wf(),
            machine@ == Run::start(count, key_views(kepks@)),
    {
        let num_peers: usize = kepks.len();
        let mut histories: Vec<Option<RunHistory>> = Vec::new();
        let mut standings: Vec<PeerStanding> = Vec::new();
        let mut i: usize = 0;
        while i < num_peers
            invariant
                i <= num_peers,
                num_peers == kepks@.len(),
                histories@.len() == i,
                standings@.len() == i,
                forall|j: int| 0 <= j < i ==> (#[trigger] standings@[j])@ == Standing::fresh(),
                forall|j: int|
                    0 <= j < i ==> (kepks@[j] is Some <==> (#[trigger] histories@[j]) is Some),
                forall|j: int|
                    0 <= j < i && histories@[j] is Some ==> {
                        let history = (#[trigger] histories@[j])->0;
                        history.wf() && history.exponential_part() is None && history.main_part()
                            is None && history.keys() == super::history::no_keys()
                    },
            decreases num_peers - i,
        {
            let history = match kepks[i] {
                Some(_) => Some(RunHistory::new(num_peers)),
                None => None,
            };
            histories.push(history);
            standings.push(PeerStanding::new());
            i += 1;
        }
        let machine = Self {
            count,
            state: RunState::DcProcess(DcPhase::Exponential),
            received: PeerSet::with_capacity(num_peers),
            histories,
            peers_before_dc_exponential: None,
            peers_before_dc_main: None,
            kepks,
            standings,
            power_sums: None,
            recovered: None,
        };
        proof {
            let start = Run::start(count, key_views(kepks@));
            assert(machine@.kepks =~= start.kepks);
            assert(machine@.histories =~= start.histories);
            assert(machine@.standings =~= start.standings);
        }
        machine
    }

    /// The number of the run.
    pub fn count(&self) -> (count: u32)
        ensures
            count == self@.count,
    {
        self.count
    }

    /// The state of the run.
    pub fn state(&self) -> (state: RunState)
        ensures
            state == self@.state,
    {
        self.state
    }

    /// The number of peer indices of the run.
    pub fn num_peers(&self) -> (n: usize)
        ensures
            n == self@.peers(),
    {
        self.kepks.len()
    }

    /// How the peer with the index `peer` stands.
    pub fn standing(&self, peer: PeerIndex) -> (standing: Option<&PeerStanding>)
        requires
            self.wf(),
        ensures
            standing is Some == (peer < self@.peers()),
            standing is Some ==> standing->0@ == self@.standings[peer as int],
    {
        if (peer as usize) < self.standings.len() {
            Some(&self.standings[peer as usize])
        } else {
            None
        }
    }

    /// The values that were recovered in the exponential DC-net.
    pub fn recovered(&self) -> (values: &Option<Vec<Fp>>)
        ensures
            match *values {
                Some(values) => self@.recovered == Some(values@),
                None => self@.recovered is None,
            },
    {
        &self.recovered
    }

    /// Moves the run to a state that follows its state.
    #[inline]
    pub fn set_state(&mut self, state: RunState)
        requires
            old(self)@.state.follows(state),
        ensures
            final(self)@ == (Run { state, ..old(self)@ }),
    {
        self.state = state;
    }

    /// Moves the run to `state` if that state follows its state, and tells
    /// whether it did.  A state that does not follow is rejected and the
    /// run stays as it is.
    pub fn try_set_state(&mut self, state: RunState) -> (moved: bool)
        ensures
            moved == old(self)@.state.follows(state),
            final(self)@ == if moved {
                Run { state, ..old(self)@ }
            } else {
                old(self)@
            },
    {
        if self.state < state {
            self.set_state(state);
            true
        } else {
            false
        }
    }

    /// The ephemeral keys of the next run, in which the peers marked in
    /// `excluded` take no part.
    pub fn next_kepks(&self, excluded: &Vec<bool>) -> (kepks: Vec<Option<PublicKey>>)
        requires
            self.wf(),
            excluded@.len() == self@.peers(),
        ensures
            kepks@.len() == self@.peers(),
            key_views(kepks@) == self@.next_kepks(excluded@),
    {
        let n: usize = self.kepks.len();
        let mut kepks: Vec<Option<PublicKey>> = Vec::new();
        let mut i: usize = 0;
        while i < n
            invariant
                i <= n,
                n == self@.peers(),
                self@.standings.len() == n,
                excluded@.len() == n,
                kepks@.len() == i,
                forall|j: int|
                    0 <= j < i ==> key_view(#[trigger] kepks@[j]) == self@.next_kepks(
                        excluded@,
                    )[j],
            decreases n - i,
        {
            let key: Option<PublicKey> = if excluded[i] {
                None
            } else {
                match (self.kepks[i], self.standings[i].next_kepk) {
                    (Some(_), Some(next)) => Some(next),
                    (current, _) => current,
                }
            };
            kepks.push(key);
            i += 1;
        }
        assert(key_views(kepks@) =~= self@.next_kepks(excluded@));
        kepks
    }

    /// Whether the peer takes part in the run.
    pub fn is_live(&self, peer: PeerIndex) -> (r: bool)
        ensures
            r == self@.live(peer as int),
    {
        let i: usize = peer as usize;
        i < self.kepks.len() && self.kepks[i].is_some()
    }

    /// Whether the run waits for the recovered values.
    pub fn awaits_solution(&self) -> (r: bool)
        ensures
            r == self@.awaits_solution(),
    {
        match self.state {
            RunState::DcReveal(DcPhase::Exponential) => self.power_sums.is_some()
                && self.recovered.is_none(),
            _ => false,
        }
    }

    /// Whether every key of the reveal is for a peer index of the run.
    fn reveal_in_range(&self, reveal: &Reveal) -> (r: bool)
        ensures
            r == in_range(reveal.keys@, self@.peers()),
    {
        let n: usize = reveal.keys.len();
        let mut i: usize = 0;
        while i < n
            invariant
                i <= n,
                n == reveal.keys@.len(),
                forall|j: int| 0 <= j < i ==> (#[trigger] reveal.keys@[j]).0 < self@.peers(),
            decreases n - i,
        {
            if reveal.keys[i].0 as usize >= self.kepks.len() {
                return false;
            }
            i += 1;
        }
        true
    }

    /// Whether the item is what the run expects of the peer in its state.
    fn expects(&self, peer: PeerIndex, incoming: &IncomingPayload) -> (r: bool)
        requires
            self.wf(),
            self@.live(peer as int),
        ensures
            r == self@.expects(peer as int, *incoming),
    {
        let i: usize = peer as usize;
        let history = match &self.histories[i] {
            Some(history) => history,
            None => {
                return false;
            },
        };
        match (self.state, incoming) {
            (
                RunState::DcProcess(DcPhase::Exponential),
                IncomingPayload::Valid(Payload::DcExponential(p)),
            ) => {
                p.dc_exp.len() == self.kepks.len() && all_consistent(p.dc_exp.as_slice())
            },
            (RunState::DcProcess(DcPhase::Main), IncomingPayload::Valid(Payload::DcMain(p))) => {
                history.dc_exponential().is_some() && p.dc_xor.len() < 0xffff_ffff
            },
            (RunState::DcReveal(_), IncomingPayload::Valid(Payload::Reveal(p))) => {
                let fresh: bool = history.accepts_reveal(p);
                let ranged: bool = self.reveal_in_range(p);
                fresh && ranged
            },
            (RunState::Blame, IncomingPayload::Valid(Payload::Blame(p))) => {
                match (PublicKey::from_secret_key(&p.ke_sk), self.kepks[i]) {
                    (Some(derived), Some(announced)) => derived.same(&announced),
                    _ => false,
                }
            },
            (RunState::Confirm, IncomingPayload::Valid(Payload::Confirm(_))) => true,
            _ => false,
        }
    }

    /// Whether an item that the run does not expect proves its peer
    /// disruptive at once.
    fn is_conclusive(&self, incoming: &IncomingPayload) -> (r: bool)
        ensures
            r == self@.conclusive(*incoming),
    {
        match (self.state, incoming) {
            (RunState::Blame, _) => true,
            (RunState::DcReveal(_), IncomingPayload::Valid(Payload::Reveal(_))) => true,
            _ => false,
        }
    }

    /// Notes the item of a peer.
    fn note(&mut self, peer: PeerIndex, incoming: IncomingPayload)
        requires
            old(self).wf(),
            old(self)@.takes(peer),
        ensures
            final(self).wf(),
            final(self)@ == old(self)@.noted(peer, incoming),
    {
        let i: usize = peer as usize;
        let expected: bool = self.expects(peer, &incoming);
        let conclusive: bool = self.is_conclusive(&incoming);
        // The item counts as the item of the peer in this round.
        self.received.insert(i);
        if expected {
            match incoming {
                IncomingPayload::Valid(payload) => {
                    self.standings[i].credit(&payload);
                    match &mut self.histories[i] {
                        Some(history) => {
                            history.record_payload(payload);
                        },
                        None => {},
                    }
                },
                IncomingPayload::Invalid => {},
            }
            proof {
                let run = old(self)@.noted(peer, incoming);
                assert(self@.kepks =~= run.kepks);
                assert(self@.histories =~= run.histories);
                assert(self@.standings =~= run.standings);
                old(self)@.lemma_noted_wf(peer, incoming);
            }
        } else {
            self.standings[i].strike(conclusive);
            proof {
                let run = old(self)@.noted(peer, incoming);
                assert(self@.kepks =~= run.kepks);
                assert(self@.histories =~= run.histories);
                assert(self@.standings =~= run.standings);
                old(self)@.lemma_noted_wf(peer, incoming);
            }
        }
    }

    /// Whether every peer of the run has delivered its item of the round.
    fn round_complete(&self) -> (r: bool)
        requires
            self.wf(),
        ensures
            r == self@.round_complete(),
    {
        let n: usize = self.kepks.len();
        let mut i: usize = 0;
        while i < n
            invariant
                i <= n,
                n == self@.peers(),
                forall|j: int| 0 <= j < i && self@.live(j) ==> self@.received.contains(j as usize),
            decreases n - i,
        {
            if self.kepks[i].is_some() && !self.received.contains(i) {
                assert(self@.live(i as int));
                return false;
            }
            i += 1;
        }
        true
    }

    /// What a well-formed run says of the histories of the machine.
    proof fn lemma_histories(&self)
        requires
            self.wf(),
        ensures
            self.histories@.len() == self.kepks@.len(),
            self.standings@.len() == self.kepks@.len(),
            self.kepks@.len() <= u32::MAX,
            forall|i: int|
                0 <= i < self.kepks@.len() && self.histories@[i] is Some && (
                #[trigger] self.histories@[i])->0@.exponential is Some
                    ==> self.histories@[i]->0@.exponential->0.dc_exp@.len() == self.kepks@.len()
                    && all_wf(self.histories@[i]->0@.exponential->0.dc_exp@),
            forall|i: int|
                0 <= i < self.kepks@.len() && self.histories@[i] is Some && (
                #[trigger] self.histories@[i])->0@.main is Some
                    ==> self.histories@[i]->0@.main->0.dc_xor@.len() < u32::MAX,
            self.recovered is Some ==> all_wf(self.recovered->0@),
            self.power_sums is Some ==> all_wf(self.power_sums->0@) && self.power_sums->0@.len()
                == self.kepks@.len(),
    {
        let run = self@;
        assert(run.peers() == self.kepks@.len());
        assert forall|i: int|
            0 <= i < self.kepks@.len() && self.histories@[i] is Some && (
            #[trigger] self.histories@[i])->0@.exponential is Some implies self.histories@[i]->0@.exponential->0.dc_exp@.len()
            == self.kepks@.len() && all_wf(self.histories@[i]->0@.exponential->0.dc_exp@) by {
            assert(run.histories[i] == Some(self.histories@[i]->0@));
        }
        assert forall|i: int|
            0 <= i < self.kepks@.len() && self.histories@[i] is Some && (
            #[trigger] self.histories@[i])->0@.main is Some implies self.histories@[i]->0@.main->0.dc_xor@.len()
            < u32::MAX by {
            assert(run.histories[i] == Some(self.histories@[i]->0@));
        }
    }

    /// Whether some peer of the run is identified as disruptive.
    fn any_blamed(&self) -> (r: bool)
        requires
            self@.standings.len() == self@.peers(),
        ensures
            r == self@.any_blamed(),
    {
        let n: usize = self.kepks.len();
        let mut i: usize = 0;
        while i < n
            invariant
                i <= n,
                n == self@.peers(),
                self@.standings.len() == n,
                forall|j: int| 0 <= j < i ==> !(self@.live(j) && (#[trigger] self@.standings[j]).blamed),
            decreases n - i,
        {
            if self.kepks[i].is_some() && self.standings[i].blamed {
                assert(self@.live(i as int) && self@.standings[i as int].blamed);
                return true;
            }
            i += 1;
        }
        false
    }

    /// Whether some peer of the run has called for blame.
    fn any_accuser(&self) -> (r: bool)
        requires
            self@.standings.len() == self@.peers(),
        ensures
            r == self@.any_accuser(),
    {
        let n: usize = self.kepks.len();
        let mut i: usize = 0;
        while i < n
            invariant
                i <= n,
                n == self@.peers(),
                self@.standings.len() == n,
                forall|j: int|
                    0 <= j < i ==> !(self@.live(j) && (#[trigger] self@.standings[j]).accuser),
            decreases n - i,
        {
            if self.kepks[i].is_some() && self.standings[i].accuser {
                assert(self@.live(i as int) && self@.standings[i as int].accuser);
                return true;
            }
            i += 1;
        }
        false
    }

    /// The peers that are to be excluded, in ascending order.
    fn culprits(&self, accusers: bool) -> (peers: Vec<PeerIndex>)
        requires
            self@.standings.len() == self@.peers(),
            self@.peers() <= u32::MAX,
        ensures
            peers@ == self@.culprits(self@.peers(), accusers),
    {
        let n: usize = self.kepks.len();
        let mut peers: Vec<PeerIndex> = Vec::new();
        let mut i: usize = 0;
        while i < n
            invariant
                i <= n,
                n == self@.peers(),
                n <= u32::MAX,
                self@.standings.len() == n,
                peers@ == self@.culprits(i as nat, accusers),
            decreases n - i,
        {
            let marked: bool = if accusers {
                self.standings[i].accuser
            } else {
                self.standings[i].blamed
            };
            if self.kepks[i].is_some() && marked {
                peers.push(i as u32);
            }
            i += 1;
        }
        peers
    }

    /// The opened payloads of the peers, in the order of the peers.
    fn collect_outputs(&self) -> (outputs: Vec<Vec<Vec<u8>>>)
        requires
            self@.standings.len() == self@.peers(),
        ensures
            outputs.model() == self@.outputs(self@.peers()),
    {
        let n: usize = self.kepks.len();
        let mut outputs: Vec<Vec<Vec<u8>>> = Vec::new();
        let mut i: usize = 0;
        assert(outputs.model() =~= self@.outputs(0));
        while i < n
            invariant
                i <= n,
                n == self@.peers(),
                self@.standings.len() == n,
                outputs.model() == self@.outputs(i as nat),
            decreases n - i,
        {
            match &self.standings[i].output {
                Some(output) => {
                    if self.kepks[i].is_some() {
                        let copy = copy_slots(output);
                        proof {
                            assert(models(outputs@.push(copy)) =~= models(outputs@).push(
                                copy.model(),
                            ));
                        }
                        outputs.push(copy);
                    }
                },
                None => {},
            }
            i += 1;
        }
        outputs
    }

    /// Ends the round.
    fn close_round(&mut self) -> (step: Step)
        requires
            old(self).wf(),
        ensures
            final(self).wf(),
            (final(self)@, step@) == old(self)@.closed(),
    {
        let peers: usize = self.kepks.len();
        proof {
            self.lemma_histories();
        }
        let step = match self.state {
            RunState::DcProcess(DcPhase::Exponential) => {
                let blamed: bool = self.any_blamed();
                self.peers_before_dc_exponential = Some(self.received.duplicate());
                self.received.make_empty();
                if blamed {
                    self.set_state(RunState::Blame);
                } else {
                    self.set_state(RunState::DcReveal(DcPhase::Exponential));
                }
                Step::Advanced
            },
            RunState::DcReveal(DcPhase::Exponential) => {
                judge_reveal(&self.histories, &mut self.standings, peers);
                assert(self@.standings =~= old(self)@.judged_reveal());
                self.received.make_empty();
                if self.any_blamed() {
                    self.set_state(RunState::Blame);
                    Step::Advanced
                } else {
                    let sums = sum_contributions(&self.histories, peers);
                    let copy = FpVec::from_slice(sums.as_slice());
                    self.power_sums = Some(sums.into_inner());
                    Step::Solve(copy.into_inner())
                }
            },
            RunState::DcProcess(DcPhase::Main) => {
                let blamed: bool = self.any_blamed();
                let accused: bool = self.any_accuser();
                self.peers_before_dc_main = Some(self.received.duplicate());
                self.received.make_empty();
                if blamed || accused {
                    self.set_state(RunState::Blame);
                } else {
                    self.set_state(RunState::DcReveal(DcPhase::Main));
                }
                Step::Advanced
            },
            RunState::DcReveal(DcPhase::Main) => {
                match &self.recovered {
                    Some(recovered) => {
                        judge_main(&self.histories, &mut self.standings, recovered, peers);
                    },
                    None => {
                        let nothing: Vec<Fp> = Vec::new();
                        assert(nothing@ =~= old(self)@.recovered_values());
                        judge_main(&self.histories, &mut self.standings, &nothing, peers);
                    },
                }
                assert(self@.standings =~= old(self)@.judged_main());
                self.received.make_empty();
                if self.any_blamed() {
                    self.set_state(RunState::Blame);
                } else {
                    self.set_state(RunState::Confirm);
                }
                Step::Advanced
            },
            RunState::Blame => {
                let blamed: bool = self.any_blamed();
                let excluded = self.culprits(!blamed);
                self.received.make_empty();
                Step::Exclude(excluded)
            },
            RunState::Confirm => {
                judge_confirm(&self.kepks, &mut self.standings, peers);
                assert(self@.standings =~= old(self)@.judged_confirm());
                assert(self@ == (Run { standings: old(self)@.judged_confirm(), ..old(self)@ }));
                let step = if self.any_blamed() {
                    let excluded = self.culprits(false);
                    Step::Exclude(excluded)
                } else {
                    let outputs = self.collect_outputs();
                    Step::Finished(outputs)
                };
                self.received.make_empty();
                step
            },
        };
        proof {
            let run = old(self)@;
            let next = self@;
            assert(next.kepks == run.kepks);
            assert(next.histories == run.histories);
            run.lemma_wf_frame(next);
            let (expected, outcome) = run.closed();
            assert(next.standings == expected.standings);
            assert(next.state == expected.state);
            assert(next.received == expected.received);
            assert(next.power_sums == expected.power_sums);
            assert(next.recovered == expected.recovered);
            assert(next.peers_before_dc_exponential == expected.peers_before_dc_exponential);
            assert(next.peers_before_dc_main == expected.peers_before_dc_main);
            assert(next == expected);
            assert(step@ == outcome);
        }
        step
    }

    /// Applies the item of a peer: the payload of a message that the
    /// channel has authenticated, or the marker of an invalid message,
    /// which also stands for a peer that has timed out.
    pub fn apply_incoming_message(&mut self, incoming: (PeerIndex, IncomingPayload)) -> (step: Step)
        requires
            old(self).wf(),
        ensures
            final(self).wf(),
            (final(self)@, step@) == old(self)@.applied(incoming.0, incoming.1),
    {
        let (peer_index, incoming_payload) = incoming;
        // Exactly one item per peer and round is taken.
        if self.awaits_solution() || !self.is_live(peer_index) || self.received.contains(
            peer_index as usize,
        ) {
            return Step::Rejected;
        }
        self.note(peer_index, incoming_payload);
        if self.round_complete() {
            self.close_round()
        } else {
            Step::Waiting
        }
    }

    /// Applies the exponential contribution of a peer.
    pub fn apply_dc_exponential(&mut self, peer_index: PeerIndex, pay: DcExponential) -> (step: Step)
        requires
            old(self).wf(),
        ensures
            final(self).wf(),
            (final(self)@, step@) == old(self)@.applied(
                peer_index,
                IncomingPayload::Valid(Payload::DcExponential(pay)),
            ),
    {
        self.apply_incoming_message((peer_index, IncomingPayload::Valid(Payload::DcExponential(pay))))
    }

    /// Applies the answer of the recovery of the values: the values, or
    /// `None` where no values have the power sums.
    pub fn apply_solution(&mut self, solution: Option<Vec<Fp>>) -> (step: Step)
        requires
            old(self).wf(),
        ensures
            final(self).wf(),
            (final(self)@, step@) == old(self)@.solved(
                match solution {
                    Some(values) => Some(values@),
                    None => None,
                },
            ),
    {
        if !self.awaits_solution() {
            return Step::Rejected;
        }
        let peers: usize = self.kepks.len();
        proof {
            self.lemma_histories();
        }
        let step = match solution {
            Some(values) => {
                let solves: bool = match &self.power_sums {
                    Some(sums) => Solver::is_solution(sums.as_slice(), values.as_slice()),
                    None => false,
                };
                if solves {
                    self.recovered = Some(values);
                    self.set_state(RunState::DcProcess(DcPhase::Main));
                    Step::Advanced
                } else {
                    Step::Fatal
                }
            },
            None => {
                judge_encoding(&self.histories, &mut self.standings, peers);
                assert(self@.standings =~= old(self)@.judged_encoding());
                if self.any_blamed() {
                    self.set_state(RunState::Blame);
                    Step::Advanced
                } else {
                    Step::Fatal
                }
            },
        };
        proof {
            let run = old(self)@;
            let next = self@;
            assert(next.kepks == run.kepks);
            assert(next.histories == run.histories);
            run.lemma_wf_frame(next);
        }
        step
    }
}

} // verus!
