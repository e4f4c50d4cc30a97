//! A mixing session: the runs of a roster of peers.

use super::machine::{key_views, RunStateMachine, Step};
use super::history::no_keys;
use super::run::{count_keys, History, Outcome, Run, Standing};
use super::{DcPhase, RunState};
use crate::field::Fp;
use crate::io::IncomingPayload;
use crate::messages::PublicKey;
use crate::wire::Layout;
use crate::{PeerId, PeerIndex};
use vstd::prelude::*;

verus! {

/// The least number of peers that a run can be made of.
pub const MIN_PEERS: usize = 2;

/// Static public information about a peer
#[derive(Clone, Debug, PartialEq, Eq)]
pub struct Peer {
    peer_id: PeerId,
    ltvk: PublicKey,
}

impl Peer {
    pub fn new(peer_id: PeerId, ltvk: PublicKey) -> (peer: Self)
        ensures
            peer.verification_key() == ltvk@,
            peer.id() == peer_id,
    {
        Peer { peer_id: peer_id, ltvk: ltvk }
    }

    /// The long-term verification key of the peer.
    pub closed spec fn verification_key(&self) -> Seq<u8> {
        self.ltvk@
    }

    /// The identifier of the peer.
    pub closed spec fn id(&self) -> PeerId {
        self.peer_id
    }

    /// The identifier of the peer.
    pub fn peer_id(&self) -> (id: PeerId)
        ensures
            id == self.id(),
    {
        self.peer_id
    }

    /// The long-term verification key of the peer.
    pub fn ltvk(&self) -> (key: &PublicKey)
        ensures
            key@ == self.verification_key(),
    {
        &self.ltvk
    }
}

/// Why a session has failed.
#[derive(Copy, Clone, Debug, PartialEq, Eq, Structural)]
pub enum Failure {
    /// Fewer than two peers are left.
    InsufficientParticipants,
    /// The recovery of the values has failed.
    RecoveryFailed,
}

/// What the driver of a session has to do after an item was driven into
/// the session.
#[derive(Debug)]
pub enum Progress {
    /// The item was not taken.  Nothing has changed.
    Rejected,
    /// The round goes on.
    Waiting,
    /// The round has ended and the next round has begun.
    Advanced,
    /// The values with the given power sums are to be recovered and
    /// handed to the session.
    Solve(Vec<Fp>),
    /// The given peers were excluded and a new run has begun.
    Restarted(Vec<PeerIndex>),
    /// The session has ended successfully with the given payloads.
    Completed(Vec<Vec<Vec<u8>>>),
    /// The session has failed.
    Failed(Failure),
}

/// `Progress` as plain values.
pub enum Advance {
    Rejected,
    Waiting,
    Advanced,
    Solve(Seq<Fp>),
    Restarted(Seq<PeerIndex>),
    Completed(Seq<Seq<Seq<u8>>>),
    Failed(Failure),
}

impl View for Progress {
    type V = Advance;

    open spec fn view(&self) -> Advance {
        match self {
            Progress::Rejected => Advance::Rejected,
            Progress::Waiting => Advance::Waiting,
            Progress::Advanced => Advance::Advanced,
            Progress::Solve(sums) => Advance::Solve(sums@),
            Progress::Restarted(peers) => Advance::Restarted(peers@),
            Progress::Completed(outputs) => Advance::Completed(outputs.model()),
            Progress::Failed(failure) => Advance::Failed(*failure),
        }
    }
}

/// A session as plain values.
pub struct Session {
    /// The peers of the roster that were excluded.
    pub excluded: Seq<bool>,
    /// The current run.
    pub run: Run,
    /// The session has ended.
    pub over: bool,
}

/// The indices below `upto` at which `flags` holds, in ascending order.
pub open spec fn marked(flags: Seq<bool>, upto: nat) -> Seq<PeerIndex>
    decreases upto,
{
    if upto == 0 {
        Seq::empty()
    } else if flags[upto - 1] {
        marked(flags, (upto - 1) as nat).push((upto - 1) as u32)
    } else {
        marked(flags, (upto - 1) as nat)
    }
}

impl Session {
    /// The roster after the peers of `peers` were excluded as well.
    pub open spec fn excluding(self, peers: Seq<PeerIndex>) -> Seq<bool> {
        Seq::new(self.excluded.len(), |i: int| self.excluded[i] || peers.contains(i as u32))
    }

    /// The number of the run after run number `count`.
    pub open spec fn next_count(count: u32) -> u32 {
        if count < u32::MAX {
            (count + 1) as u32
        } else {
            count
        }
    }

    /// The session is well-formed: it knows of every peer of its run
    /// whether it is excluded.
    pub open spec fn wf(self) -> bool {
        self.run.wf() && self.excluded.len() == self.run.peers()
    }

    /// The session and what its driver has to do after a step of the run.
    /// The end of a run with exclusions starts the next run with the peers
    /// that are left, or ends the session where fewer than two are left.
    /// The successful end of a run ends the session.
    pub open spec fn stepped(self, after: (Run, Outcome)) -> (Session, Advance) {
        let (run, outcome) = after;
        match outcome {
            Outcome::Rejected => (Session { run, ..self }, Advance::Rejected),
            Outcome::Waiting => (Session { run, ..self }, Advance::Waiting),
            Outcome::Advanced => (Session { run, ..self }, Advance::Advanced),
            Outcome::Solve(sums) => (Session { run, ..self }, Advance::Solve(sums)),
            Outcome::Fatal => (
                Session { run, over: true, ..self },
                Advance::Failed(Failure::RecoveryFailed),
            ),
            Outcome::Finished(outputs) => (
                Session { run, over: true, ..self },
                Advance::Completed(outputs),
            ),
            Outcome::Exclude(peers) => {
                let excluded = self.excluding(peers);
                let kepks = run.next_kepks(excluded);
                if count_keys(kepks, kepks.len()) < MIN_PEERS {
                    (
                        Session { excluded, run, over: true },
                        Advance::Failed(Failure::InsufficientParticipants),
                    )
                } else {
                    (
                        Session {
                            excluded,
                            run: Run::start(Self::next_count(run.count), kepks),
                            over: false,
                        },
                        Advance::Restarted(peers),
                    )
                }
            },
        }
    }

    /// The session and what its driver has to do after an item was driven
    /// into it.  A session that has ended takes no item.
    pub open spec fn driven(self, peer: PeerIndex, incoming: IncomingPayload) -> (Session, Advance) {
        if self.over {
            (self, Advance::Rejected)
        } else {
            self.stepped(self.run.applied(peer, incoming))
        }
    }

    /// The session and what its driver has to do after the recovery of the
    /// values has answered.
    pub open spec fn answered(self, solution: Option<Seq<Fp>>) -> (Session, Advance) {
        if self.over {
            (self, Advance::Rejected)
        } else {
            self.stepped(self.run.solved(solution))
        }
    }
}

/// When a run ends with exclusions, exactly the peers that the run has
/// identified are excluded in addition, none is ever admitted again, and the
/// next run starts from the beginning without the excluded peers and without
/// anything of the run before.
pub proof fn lemma_restart(session: Session, run: Run, peers: Seq<PeerIndex>)
    requires
        session.wf(),
        run.wf(),
        run.peers() == session.run.peers(),
        session.stepped((run, Outcome::Exclude(peers))).1 is Restarted,
    ensures
        ({
            let next = session.stepped((run, Outcome::Exclude(peers))).0;
            &&& next.excluded.len() == session.excluded.len()
            &&& forall|i: int|
                0 <= i < session.excluded.len() ==> (#[trigger] next.excluded[i] <==> (
                session.excluded[i] || peers.contains(i as u32)))
            &&& forall|i: int|
                0 <= i < session.excluded.len() && next.excluded[i] ==> !(#[trigger] next.run.live(
                    i,
                ))
            &&& next.run.state == RunState::DcProcess(DcPhase::Exponential)
            &&& next.run.received == Set::<usize>::empty()
            &&& forall|i: int|
                0 <= i < next.run.peers() ==> (#[trigger] next.run.standings[i])
                    == Standing::fresh()
            &&& forall|i: int|
                0 <= i < next.run.peers() && next.run.live(i) ==> (
                #[trigger] next.run.histories[i]) == Some(
                    History { exponential: None, main: None, keys: no_keys() },
                )
            &&& next.run.recovered is None
            &&& count_keys(next.run.kepks, next.run.peers()) >= MIN_PEERS
        }),
{
}

/// An execution of the protocol: a session of a roster of peers.
#[derive(Debug)]
pub struct Execution {
    peers: Vec<Peer>,
    excluded: Vec<bool>,
    rsm: RunStateMachine,
    over: bool,
}

impl View for Execution {
    type V = Session;

    closed spec fn view(&self) -> Session {
        Session { excluded: self.excluded@, run: self.rsm@, over: self.over }
    }
}

/// The keys with which a session of `peers` peers starts: the initial key
/// of every peer for which there is one.
pub open spec fn initial_keys(peers: nat, initial_kepks: Seq<PublicKey>) -> Seq<Option<Seq<u8>>> {
    Seq::new(
        peers,
        |i: int|
            if i < initial_kepks.len() {
                Some(initial_kepks[i]@)
            } else {
                None
            },
    )
}

impl Execution {
    /// The execution holds a well-formed session of its roster.
    pub open spec fn wf(&self) -> bool {
        self@.wf() && self.roster_len() == self@.excluded.len()
    }

    /// The peers of the roster.
    pub closed spec fn roster(&self) -> Seq<Peer> {
        self.peers@
    }

    /// The number of peers of the roster.
    pub open spec fn roster_len(&self) -> nat {
        self.roster().len()
    }

    /// A session of the peers `peers`, and its first run with the ephemeral
    /// keys `initial_kepks`.  A peer without initial key takes no part.
    pub fn new(peers: Vec<Peer>, initial_kepks: Vec<PublicKey>) -> (execution: Self)
        requires
            peers@.len() <= u32::MAX,
        ensures
            execution.wf(),
            execution.roster() == peers@,
            execution@ == (Session {
                excluded: Seq::new(peers@.len(), |i: int| false),
                run: Run::start(0, initial_keys(peers@.len(), initial_kepks@)),
                over: false,
            }),
    {
        let num_peers: usize = peers.len();
        let mut kepks: Vec<Option<PublicKey>> = Vec::new();
        let mut excluded: Vec<bool> = Vec::new();
        let mut i: usize = 0;
        while i < num_peers
            invariant
                i <= num_peers,
                kepks@.len() == i,
                excluded@.len() == i,
                forall|j: int| 0 <= j < i ==> !excluded@[j],
                forall|j: int|
                    0 <= j < i ==> #[trigger] kepks@[j] == if j < initial_kepks@.len() {
                        Some(initial_kepks@[j])
                    } else {
                        None
                    },
            decreases num_peers - i,
        {
            if i < initial_kepks.len() {
                kepks.push(Some(initial_kepks[i]));
            } else {
                kepks.push(None);
            }
            excluded.push(false);
            i += 1;
        }
        proof {
            assert(key_views(kepks@) =~= initial_keys(num_peers as nat, initial_kepks@));
            assert(excluded@ =~= Seq::new(peers@.len(), |i: int| false));
        }
        let rsm = RunStateMachine::new(0, kepks);
        Self { peers, excluded, rsm, over: false }
    }

    #[inline]
    pub fn num_peers(&self) -> (n: usize)
        ensures
            n == self.roster_len(),
    {
        self.peers.len()
    }

    /// The peers of the roster.
    pub fn peers(&self) -> (peers: &Vec<Peer>)
        ensures
            peers@ == self.roster(),
    {
        &self.peers
    }

    /// The current run.
    pub fn run(&self) -> (rsm: &RunStateMachine)
        ensures
            rsm@ == self@.run,
    {
        &self.rsm
    }

    /// Whether the session has ended.
    pub fn is_over(&self) -> (over: bool)
        ensures
            over == self@.over,
    {
        self.over
    }

    /// Whether the peer was excluded.
    pub fn is_excluded(&self, peer: PeerIndex) -> (r: bool)
        ensures
            r == (peer < self@.excluded.len() && self@.excluded[peer as int]),
    {
        (peer as usize) < self.excluded.len() && self.excluded[peer as usize]
    }

    /// The peers that were excluded, in ascending order.
    pub fn exclusion_list(&self) -> (list: Vec<PeerIndex>)
        requires
            self.wf(),
        ensures
            list@ == marked(self@.excluded, self@.excluded.len()),
    {
        let n: usize = self.excluded.len();
        let mut list: Vec<PeerIndex> = Vec::new();
        let mut i: usize = 0;
        while i < n
            invariant
                i <= n,
                n == self@.excluded.len(),
                n <= u32::MAX,
                list@ == marked(self@.excluded, i as nat),
            decreases n - i,
        {
            if self.excluded[i] {
                list.push(i as u32);
            }
            i += 1;
        }
        list
    }

    /// Drives an item into the session: the payload of a message of a peer
    /// that the channel has authenticated, or the marker of an invalid
    /// message, which also stands for a peer that has timed out.
    pub fn drive(&mut self, item: (PeerIndex, IncomingPayload)) -> (progress: Progress)
        requires
            old(self).wf(),
        ensures
            final(self).wf(),
            final(self).roster() == old(self).roster(),
            (final(self)@, progress@) == old(self)@.driven(item.0, item.1),
    {
        if self.over {
            return Progress::Rejected;
        }
        let step = self.rsm.apply_incoming_message(item);
        self.settle(step)
    }

    /// Hands the answer of the recovery of the values to the session: the
    /// values, or `None` where no values have the power sums.
    pub fn solved(&mut self, solution: Option<Vec<Fp>>) -> (progress: Progress)
        requires
            old(self).wf(),
        ensures
            final(self).wf(),
            final(self).roster() == old(self).roster(),
            (final(self)@, progress@) == old(self)@.answered(
                match solution {
                    Some(values) => Some(values@),
                    None => None,
                },
            ),
    {
        if self.over {
            return Progress::Rejected;
        }
        let step = self.rsm.apply_solution(solution);
        self.settle(step)
    }

    /// Draws the consequences of a step of the run.
    fn settle(&mut self, step: Step) -> (progress: Progress)
        requires
            old(self).wf(),
            !old(self)@.over,
        ensures
            final(self).wf(),
            final(self).roster() == old(self).roster(),
            (final(self)@, progress@) == old(self)@.stepped((old(self)@.run, step@)),
    {
        match step {
            Step::Rejected => Progress::Rejected,
            Step::Waiting => Progress::Waiting,
            Step::Advanced => Progress::Advanced,
            Step::Solve(sums) => Progress::Solve(sums),
            Step::Fatal => {
                self.over = true;
                Progress::Failed(Failure::RecoveryFailed)
            },
            Step::Finished(outputs) => {
                self.over = true;
                Progress::Completed(outputs)
            },
            Step::Exclude(peers) => {
                self.mark_excluded(&peers);
                let kepks = self.rsm.next_kepks(&self.excluded);
                if count_present(&kepks) < MIN_PEERS {
                    self.over = true;
                    Progress::Failed(Failure::InsufficientParticipants)
                } else {
                    let count: u32 = self.rsm.count();
                    let next: u32 = if count < u32::MAX {
                        count + 1
                    } else {
                        count
                    };
                    self.rsm = RunStateMachine::new(next, kepks);
                    Progress::Restarted(peers)
                }
            },
        }
    }

    /// Marks the peers of `peers` as excluded.
    fn mark_excluded(&mut self, peers: &Vec<PeerIndex>)
        requires
            old(self).excluded@.len() <= u32::MAX,
        ensures
            final(self).rsm == old(self).rsm,
            final(self).peers == old(self).peers,
            final(self).over == old(self).over,
            final(self).excluded@ == old(self)@.excluding(peers@),
    {
        let n: usize = self.excluded.len();
        let mut i: usize = 0;
        while i < n
            invariant
                i <= n,
                n == old(self).excluded@.len(),
                n <= u32::MAX,
                self.excluded@.len() == n,
                self.rsm == old(self).rsm,
                self.peers == old(self).peers,
                self.over == old(self).over,
                forall|j: int| i <= j < n ==> self.excluded@[j] == old(self).excluded@[j],
                forall|j: int|
                    0 <= j < i ==> self.excluded@[j] == (old(self).excluded@[j] || peers@.contains(
                        j as u32,
                    )),
            decreases n - i,
        {
            if contains_peer(peers, i as u32) {
                self.excluded[i] = true;
            }
            i += 1;
        }
        assert(self.excluded@ =~= old(self)@.excluding(peers@));
    }
}

/// Whether `peer` is among `peers`.
fn contains_peer(peers: &Vec<PeerIndex>, peer: PeerIndex) -> (r: bool)
    ensures
        r == peers@.contains(peer),
{
    let mut k: usize = 0;
    while k < peers.len()
        invariant
            k <= peers@.len(),
            forall|j: int| 0 <= j < k ==> peers@[j] != peer,
        decreases peers@.len() - k,
    {
        if peers[k] == peer {
            return true;
        }
        k += 1;
    }
    false
}

/// The number of keys.
fn count_present(kepks: &Vec<Option<PublicKey>>) -> (n: usize)
    ensures
        n == count_keys(key_views(kepks@), kepks@.len()),
{
    let mut n: usize = 0;
    let mut i: usize = 0;
    while i < kepks.len()
        invariant
            i <= kepks@.len(),
            n <= i,
            n == count_keys(key_views(kepks@), i as nat),
        decreases kepks@.len() - i,
    {
        if kepks[i].is_some() {
            n += 1;
        }
        i += 1;
    }
    n
}

} // verus!
