//! What a peer has sent in a run.

use super::peer_set::PeerSet;
use crate::messages::{DcExponential, DcMain, Payload, Reveal};
use crate::{PeerIndex, SymmetricKey};
use vstd::prelude::*;

verus! {

#[verifier::external_type_specification]
#[verifier::external_body]
#[verifier::reject_recursive_types(V)]
pub struct ExVecMap<V>(vec_map::VecMap<V>);

/// The keys that a map of revealed keys holds, by peer index.
pub uninterp spec fn vec_map_entries(map: vec_map::VecMap<[u8; 32]>) -> Map<usize, Seq<u8>>;

/// The map that holds no key.
pub open spec fn no_keys() -> Map<usize, Seq<u8>> {
    Map::empty()
}

/// An empty map of revealed keys.
///
/// Trusted: `VecMap::new`, which holds no entry.
#[verifier::external_body]
fn new_key_map() -> (fresh: vec_map::VecMap<[u8; 32]>)
    ensures
        vec_map_entries(fresh) == no_keys(),
{
    vec_map::VecMap::new()
}

/// The peer indices for which a key can be recorded: the map keeps an entry
/// of 33 bytes for every index up to the largest that it holds, and no
/// vector holds more than `isize::MAX` bytes.
pub open spec fn key_limit() -> int {
    isize::MAX / 64
}

/// Computes `key_limit`.
pub fn max_keys() -> (limit: usize)
    ensures
        limit == key_limit(),
{
    (isize::MAX as usize) / 64
}

/// Records `value` under `key` and returns the key that was recorded there
/// before.
///
/// Trusted: `VecMap::insert`, which extends its vector up to the key,
/// replaces the entry and returns the entry that it held.  The extension
/// fails where the vector would outgrow the address space; such keys are
/// left out.
#[verifier::external_body]
fn key_map_insert(map: &mut vec_map::VecMap<[u8; 32]>, key: usize, value: [u8; 32]) -> (was:
    Option<SymmetricKey>)
    requires
        key < key_limit(),
    ensures
        vec_map_entries(*final(map)) == vec_map_entries(*old(map)).insert(key, value@),
        was is Some == vec_map_entries(*old(map)).dom().contains(key),
        was is Some ==> was->0@ == vec_map_entries(*old(map))[key],
{
    map.insert(key, value)
}

/// The key that is recorded under `key`.
///
/// Trusted: `VecMap::get`, which returns the entry of the key, and `None`
/// where the vector holds none or ends before the key.
#[verifier::external_body]
fn key_map_get(map: &vec_map::VecMap<[u8; 32]>, key: usize) -> (value: Option<SymmetricKey>)
    ensures
        value is Some == vec_map_entries(*map).dom().contains(key),
        value is Some ==> value->0@ == vec_map_entries(*map)[key],
{
    map.get(key).copied()
}

/// The map `keys` after the entries of a reveal were recorded in order.
pub open spec fn with_revealed(keys: Map<usize, Seq<u8>>, entries: Seq<(PeerIndex, SymmetricKey)>) -> Map<
    usize,
    Seq<u8>,
>
    decreases entries.len(),
{
    if entries.len() == 0 {
        keys
    } else {
        with_revealed(keys, entries.drop_last()).insert(
            entries.last().0 as usize,
            entries.last().1@,
        )
    }
}

/// No entry of a reveal brings a key for a peer for which a key is
/// recorded already, be it in `keys` or from an entry before it, and every
/// entry is for a peer index for which a key can be recorded.
pub open spec fn fresh_reveal(keys: Map<usize, Seq<u8>>, entries: Seq<(PeerIndex, SymmetricKey)>) -> bool
    decreases entries.len(),
{
    if entries.len() == 0 {
        true
    } else {
        &&& fresh_reveal(keys, entries.drop_last())
        &&& entries.last().0 < key_limit()
        &&& !with_revealed(keys, entries.drop_last()).dom().contains(entries.last().0 as usize)
    }
}

/// The first entries of a fresh reveal are a fresh reveal.
pub proof fn lemma_fresh_reveal_prefix(
    keys: Map<usize, Seq<u8>>,
    entries: Seq<(PeerIndex, SymmetricKey)>,
    k: int,
)
    requires
        0 <= k <= entries.len(),
        fresh_reveal(keys, entries),
    ensures
        fresh_reveal(keys, entries.take(k)),
    decreases entries.len(),
{
    if k == entries.len() {
        assert(entries.take(k) =~= entries);
    } else {
        lemma_fresh_reveal_prefix(keys, entries.drop_last(), k);
        assert(entries.drop_last().take(k) =~= entries.take(k));
    }
}

/// A history of the payloads sent by a peer in a single run
///
/// After a peer revealed its keys, this data is used to verify that the
/// peer has sent correct messages.  The ephemeral public key is not stored
/// here, because it is stored with the run.
#[derive(Debug)]
pub struct RunHistory {
    dc_exponential: Option<DcExponential>,
    dc_main: Option<DcMain>,
    revealed_symmetric_keys: vec_map::VecMap<SymmetricKey>,
}

impl RunHistory {
    /// The exponential contribution that was recorded.
    pub closed spec fn exponential_part(&self) -> Option<DcExponential> {
        self.dc_exponential
    }

    /// The main contribution that was recorded.
    pub closed spec fn main_part(&self) -> Option<DcMain> {
        self.dc_main
    }

    /// The keys that were revealed, by peer index.
    pub closed spec fn keys(&self) -> Map<usize, Seq<u8>> {
        vec_map_entries(self.revealed_symmetric_keys)
    }

    /// A main contribution is recorded only after an exponential one.
    pub open spec fn wf(&self) -> bool {
        self.main_part() is Some ==> self.exponential_part() is Some
    }

    /// The payloads that can be recorded: a main contribution after an
    /// exponential one, and a reveal with fresh keys only.
    pub open spec fn recordable(&self, payload: &Payload) -> bool {
        match payload {
            Payload::DcMain(_) => self.exponential_part() is Some,
            Payload::Reveal(reveal) => fresh_reveal(self.keys(), reveal.keys@),
            _ => true,
        }
    }

    /// The empty history.  The number of peers is a hint only.
    pub fn new(num_peers: usize) -> (history: Self)
        ensures
            history.wf(),
            history.exponential_part() is None,
            history.main_part() is None,
            history.keys() == no_keys(),
    {
        RunHistory { dc_exponential: None, dc_main: None, revealed_symmetric_keys: new_key_map() }
    }

    /// Whether the keys of `reveal` can be recorded: none of them is for a
    /// peer for which a key was recorded or occurs twice.
    pub fn accepts_reveal(&self, reveal: &Reveal) -> (fresh: bool)
        ensures
            fresh == fresh_reveal(self.keys(), reveal.keys@),
    {
        let mut seen = PeerSet::with_capacity(0);
        let n: usize = reveal.keys.len();
        let mut i: usize = 0;
        let ghost entries = reveal.keys@;
        assert(entries.take(0) =~= Seq::<(PeerIndex, SymmetricKey)>::empty());
        while i < n
            invariant
                i <= n,
                n == entries.len(),
                entries == reveal.keys@,
                fresh_reveal(self.keys(), entries.take(i as int)),
                with_revealed(self.keys(), entries.take(i as int)).dom() == self.keys().dom().union(
                    seen@,
                ),
            decreases n - i,
        {
            let index: PeerIndex = reveal.keys[i].0;
            let ghost now = entries.take(i + 1);
            proof {
                assert(now.len() == i + 1);
                assert(now.drop_last() =~= entries.take(i as int));
                assert(now.last() == entries[i as int]);
                assert(entries[i as int].0 == index);
                assert(fresh_reveal(self.keys(), now) == (fresh_reveal(self.keys(), now.drop_last())
                    && now.last().0 < key_limit() && !with_revealed(
                    self.keys(),
                    now.drop_last(),
                ).dom().contains(now.last().0 as usize)));
                assert(with_revealed(self.keys(), now) == with_revealed(
                    self.keys(),
                    now.drop_last(),
                ).insert(now.last().0 as usize, now.last().1@));
            }
            let slot: usize = index as usize;
            let recorded: bool = key_map_get(&self.revealed_symmetric_keys, slot).is_some();
            let repeated: bool = seen.contains(slot);
            assert(slot == now.last().0 as usize);
            if slot >= max_keys() || recorded || repeated {
                proof {
                    assert(!fresh_reveal(self.keys(), now));
                    if fresh_reveal(self.keys(), entries) {
                        lemma_fresh_reveal_prefix(self.keys(), entries, i + 1);
                    }
                }
                return false;
            }
            seen.insert(slot);
            assert(with_revealed(self.keys(), now).dom() =~= self.keys().dom().union(seen@));
            i += 1;
        }
        assert(entries.take(n as int) =~= entries);
        true
    }

    /// Whether `payload` can be recorded.
    pub fn can_record(&self, payload: &Payload) -> (r: bool)
        ensures
            r == self.recordable(payload),
    {
        match payload {
            Payload::DcMain(_) => self.dc_exponential.is_some(),
            Payload::Reveal(reveal) => self.accepts_reveal(reveal),
            _ => true,
        }
    }

    /// Records a payload of the peer.  A contribution replaces the one that
    /// was recorded before, the keys of a reveal are added; other payloads
    /// leave no trace.
    pub fn record_payload(&mut self, payload: Payload)
        requires
            old(self).wf(),
            old(self).recordable(&payload),
        ensures
            final(self).wf(),
            final(self).exponential_part() == match payload {
                Payload::DcExponential(inner) => Some(inner),
                _ => old(self).exponential_part(),
            },
            final(self).main_part() == match payload {
                Payload::DcMain(inner) => Some(inner),
                _ => old(self).main_part(),
            },
            final(self).keys() == match payload {
                Payload::Reveal(reveal) => with_revealed(old(self).keys(), reveal.keys@),
                _ => old(self).keys(),
            },
    {
        match payload {
            Payload::DcExponential(inner) => {
                self.dc_exponential = Some(inner)
            },
            Payload::DcMain(inner) => {
                self.dc_main = Some(inner)
            },
            Payload::Reveal(Reveal { keys }) => {
                let n: usize = keys.len();
                let mut i: usize = 0;
                assert(keys@.take(0) =~= Seq::<(PeerIndex, SymmetricKey)>::empty());
                while i < n
                    invariant
                        i <= n,
                        n == keys@.len(),
                        fresh_reveal(old(self).keys(), keys@),
                        self.dc_exponential == old(self).dc_exponential,
                        self.dc_main == old(self).dc_main,
                        self.keys() == with_revealed(old(self).keys(), keys@.take(i as int)),
                    decreases n - i,
                {
                    let (index, key) = keys[i];
                    proof {
                        lemma_fresh_reveal_prefix(old(self).keys(), keys@, i + 1);
                        assert(keys@.take(i + 1).last() == keys@[i as int]);
                    }
                    // Record the key.  That none has been recorded for that peer
                    // is what the caller has checked.
                    let _ = key_map_insert(&mut self.revealed_symmetric_keys, index as usize, key);
                    assert(keys@.take(i + 1).drop_last() =~= keys@.take(i as int));
                    i += 1;
                }
                assert(keys@.take(n as int) =~= keys@);
            },
            _ => {},
        };
    }

    pub fn dc_exponential(&self) -> (r: &Option<DcExponential>)
        ensures
            *r == self.exponential_part(),
    {
        &self.dc_exponential
    }

    pub fn dc_main(&self) -> (r: &Option<DcMain>)
        ensures
            *r == self.main_part(),
    {
        &self.dc_main
    }

    /// The key that the peer has revealed for `peer`.
    pub fn revealed_key(&self, peer: usize) -> (key: Option<SymmetricKey>)
        ensures
            key is Some == self.keys().dom().contains(peer),
            key is Some ==> key->0@ == self.keys()[peer],
    {
        key_map_get(&self.revealed_symmetric_keys, peer)
    }

    /// Whether the history is consistent.
    #[inline]
    pub fn consistent(&self) -> (r: bool)
        ensures
            r == self.wf(),
    {
        match (self.dc_exponential.is_some(), self.dc_main.is_some()) {
            (_, false) => true,
            (true, _) => true,
            _ => false,
        }
    }
}

} // verus!
