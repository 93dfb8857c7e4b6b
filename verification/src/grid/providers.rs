//! Provider records: which nodes announced that they hold which file.

use vstd::prelude::*;
use crate::bootstrap::stats::{elapsed_ms, elapsed_since};
use crate::grid::dht::{same_id, InfoHash, NodeId};
use crate::net::SocketAddress;
use crate::seq_util::{lemma_filter_ends, lemma_filter_members, lemma_filter_step};

verus! {

/// Providers kept per file at most.
pub const MAX_PROVIDERS: usize = 100;

/// A provider record is dropped an hour after it was announced.
pub const PROVIDER_TTL_MS: u64 = 3_600_000;

/// One announcement: the node, where to reach it, and when it announced.
#[derive(Clone, Copy, Debug)]
pub struct ProviderInfo {
    pub node_id: NodeId,
    pub addr: SocketAddress,
    pub announced_at: u64,
}

/// Whether a record is younger than the provider time-to-live.
pub open spec fn provider_fresh(p: ProviderInfo, now: u64) -> bool {
    elapsed_ms(p.announced_at, now) < PROVIDER_TTL_MS
}

/// The records younger than the time-to-live, in their order.
pub open spec fn fresh_providers(list: Seq<ProviderInfo>, now: u64) -> Seq<ProviderInfo> {
    list.filter(|p: ProviderInfo| provider_fresh(p, now))
}

/// The records of all nodes but `id`, in their order.
pub open spec fn without_node(list: Seq<ProviderInfo>, id: Seq<u8>) -> Seq<ProviderInfo> {
    list.filter(|p: ProviderInfo| p.node_id@ != id)
}

/// Where a record announced at `at` goes into a list that is ordered most
/// recent first: behind every record that is as recent or more recent.
pub open spec fn recency_slot(sorted: Seq<ProviderInfo>, at: u64) -> int
    decreases sorted.len(),
{
    if sorted.len() == 0 {
        0
    } else if sorted.last().announced_at >= at {
        sorted.len() as int
    } else {
        recency_slot(sorted.drop_last(), at)
    }
}

/// The records ordered most recent first; records announced at the same
/// time keep their order.
pub open spec fn most_recent_first(list: Seq<ProviderInfo>) -> Seq<ProviderInfo>
    decreases list.len(),
{
    if list.len() == 0 {
        Seq::empty()
    } else {
        let sorted = most_recent_first(list.drop_last());
        sorted.insert(recency_slot(sorted, list.last().announced_at), list.last())
    }
}

/// No record is followed by a more recent one.
pub open spec fn recent_first(list: Seq<ProviderInfo>) -> bool {
    forall|i: int, j: int|
        0 <= i < j < list.len() ==> (#[trigger] list[i]).announced_at >= (
        #[trigger] list[j]).announced_at
}

/// The list of one file after the node `id` announced from `addr` at
/// `now`: an earlier record of that node is replaced, and past
/// [`MAX_PROVIDERS`] the list is put most recent first and cut.
pub open spec fn providers_after_announce(
    list: Seq<ProviderInfo>,
    id: NodeId,
    addr: SocketAddress,
    now: u64,
) -> Seq<ProviderInfo> {
    let grown = without_node(list, id@).push(ProviderInfo { node_id: id, addr, announced_at: now });
    if grown.len() > MAX_PROVIDERS {
        most_recent_first(grown).take(MAX_PROVIDERS as int)
    } else {
        grown
    }
}

/// The contacts of a list of records.
pub open spec fn contacts_of(list: Seq<ProviderInfo>) -> Seq<(NodeId, SocketAddress)> {
    Seq::new(list.len(), |k: int| (list[k].node_id, list[k].addr))
}

pub proof fn lemma_recency_slot(sorted: Seq<ProviderInfo>, at: u64)
    requires
        recent_first(sorted),
    ensures
        0 <= recency_slot(sorted, at) <= sorted.len(),
        forall|i: int| 0 <= i < recency_slot(sorted, at) ==> (#[trigger] sorted[i]).announced_at >= at,
        forall|i: int|
            recency_slot(sorted, at) <= i < sorted.len() ==> (#[trigger] sorted[i]).announced_at
                < at,
    decreases sorted.len(),
{
    if sorted.len() > 0 {
        let rest = sorted.drop_last();
        assert forall|i: int, j: int| 0 <= i < j < rest.len() implies (
        #[trigger] rest[i]).announced_at >= (#[trigger] rest[j]).announced_at by {
            assert(rest[i] == sorted[i] && rest[j] == sorted[j]);
        }
        if sorted.last().announced_at >= at {
            assert forall|i: int| 0 <= i < sorted.len() implies (#[trigger] sorted[i]).announced_at
                >= at by {
                if i < sorted.len() - 1 {
                    assert(sorted[i].announced_at >= sorted[sorted.len() - 1].announced_at);
                }
            }
        } else {
            lemma_recency_slot(rest, at);
            assert forall|i: int| 0 <= i < recency_slot(sorted, at) implies (
            #[trigger] sorted[i]).announced_at >= at by {
                assert(rest[i] == sorted[i]);
            }
            assert forall|i: int| recency_slot(sorted, at) <= i < sorted.len() implies (
            #[trigger] sorted[i]).announced_at < at by {
                if i < sorted.len() - 1 {
                    assert(rest[i] == sorted[i]);
                }
            }
        }
    }
}

/// `most_recent_first` orders by recency and neither adds nor loses a record.
pub proof fn lemma_most_recent_first(list: Seq<ProviderInfo>)
    ensures
        recent_first(most_recent_first(list)),
        most_recent_first(list).len() == list.len(),
        forall|i: int| 0 <= i < list.len() ==> most_recent_first(list).contains(#[trigger] list[i]),
        forall|k: int|
            0 <= k < most_recent_first(list).len() ==> list.contains(
                #[trigger] most_recent_first(list)[k],
            ),
    decreases list.len(),
{
    if list.len() > 0 {
        let rest = list.drop_last();
        let e = list.last();
        lemma_most_recent_first(rest);
        let sorted = most_recent_first(rest);
        lemma_recency_slot(sorted, e.announced_at);
        let slot = recency_slot(sorted, e.announced_at);
        let out = most_recent_first(list);
        assert(out == sorted.insert(slot, e));
        assert forall|i: int, j: int| 0 <= i < j < out.len() implies (
        #[trigger] out[i]).announced_at >= (#[trigger] out[j]).announced_at by {
            if i < slot && j > slot {
                assert(out[i] == sorted[i] && out[j] == sorted[j - 1]);
            } else if i < slot && j < slot {
                assert(out[i] == sorted[i] && out[j] == sorted[j]);
            } else if i > slot {
                assert(out[i] == sorted[i - 1] && out[j] == sorted[j - 1]);
            } else if i == slot {
                assert(out[j] == sorted[j - 1]);
            } else {
                assert(out[i] == sorted[i]);
            }
        }
        assert forall|i: int| 0 <= i < list.len() implies out.contains(#[trigger] list[i]) by {
            if i < rest.len() {
                assert(rest[i] == list[i]);
                assert(sorted.contains(rest[i]));
                let k = choose|k: int| 0 <= k < sorted.len() && sorted[k] == rest[i];
                if k < slot {
                    assert(out[k] == sorted[k]);
                } else {
                    assert(out[k + 1] == sorted[k]);
                }
            } else {
                assert(out[slot] == e);
            }
        }
        assert forall|k: int| 0 <= k < out.len() implies list.contains(#[trigger] out[k]) by {
            if k == slot {
                assert(list[list.len() - 1] == out[k]);
            } else {
                let m = if k < slot { k } else { k - 1 };
                assert(out[k] == sorted[m]);
                assert(rest.contains(sorted[m]));
                let i = choose|i: int| 0 <= i < rest.len() && rest[i] == sorted[m];
                assert(list[i] == rest[i]);
            }
        }
    }
}

/// The records ordered most recent first, with ties left in their order.
#[verifier::loop_isolation(false)]
pub fn sort_most_recent_first(list: &Vec<ProviderInfo>) -> (sorted: Vec<ProviderInfo>)
    ensures
        sorted@ == most_recent_first(list@),
{
    let mut sorted: Vec<ProviderInfo> = Vec::new();
    let mut i: usize = 0;
    while i < list.len()
        invariant
            i <= list@.len(),
            sorted@ == most_recent_first(list@.take(i as int)),
        decreases list@.len() - i,
    {
        let e = list[i];
        proof {
            assert(list@.take(i + 1).drop_last() =~= list@.take(i as int));
            lemma_most_recent_first(list@.take(i as int));
        }
        let mut slot: usize = sorted.len();
        proof {
            assert(sorted@.take(slot as int) =~= sorted@);
        }
        while slot > 0 && sorted[slot - 1].announced_at < e.announced_at
            invariant
                slot <= sorted@.len(),
                recency_slot(sorted@, e.announced_at) == recency_slot(
                    sorted@.take(slot as int),
                    e.announced_at,
                ),
            decreases slot,
        {
            proof {
                assert(sorted@.take(slot as int).drop_last() =~= sorted@.take(slot - 1));
            }
            slot -= 1;
        }
        proof {
            assert(sorted@.take(sorted@.len() as int) =~= sorted@);
        }
        sorted.insert(slot, e);
        i += 1;
    }
    proof {
        assert(list@.take(i as int) =~= list@);
    }
    sorted
}

/// The records that one file has.
#[derive(Debug)]
pub struct ProviderRecord {
    info_hash: InfoHash,
    providers: Vec<ProviderInfo>,
}

/// The provider records of a node, file by file.
#[derive(Debug)]
pub struct ProviderStore {
    records: Vec<ProviderRecord>,
}

/// The providers that `store` lists for the file `hash`: those of the
/// first record of that file, or none.
pub open spec fn providers_of(store: Seq<(Seq<u8>, Seq<ProviderInfo>)>, hash: Seq<u8>) -> Seq<
    ProviderInfo,
>
    decreases store.len(),
{
    if store.len() == 0 {
        Seq::empty()
    } else if store[0].0 == hash {
        store[0].1
    } else {
        providers_of(store.drop_first(), hash)
    }
}

/// The position of the record of the file `hash`, or -1.
pub open spec fn record_position(store: Seq<(Seq<u8>, Seq<ProviderInfo>)>, hash: Seq<u8>) -> int
    decreases store.len(),
{
    if store.len() == 0 {
        -1
    } else {
        let p = record_position(store.drop_last(), hash);
        if p >= 0 {
            p
        } else if store.last().0 == hash {
            store.len() - 1
        } else {
            -1
        }
    }
}

/// The store after the node `id` announced the file `hash`.
pub open spec fn store_after_announce(
    store: Seq<(Seq<u8>, Seq<ProviderInfo>)>,
    hash: Seq<u8>,
    id: NodeId,
    addr: SocketAddress,
    now: u64,
) -> Seq<(Seq<u8>, Seq<ProviderInfo>)> {
    let at = record_position(store, hash);
    if at >= 0 {
        store.update(at, (hash, providers_after_announce(store[at].1, id, addr, now)))
    } else {
        store.push((hash, providers_after_announce(Seq::empty(), id, addr, now)))
    }
}

/// The store after a purge at `now`: records older than the time-to-live
/// are gone, and so is every file that is left without a record.
pub open spec fn store_purged(store: Seq<(Seq<u8>, Seq<ProviderInfo>)>, now: u64) -> Seq<
    (Seq<u8>, Seq<ProviderInfo>),
>
    decreases store.len(),
{
    if store.len() == 0 {
        Seq::empty()
    } else {
        let rest = store_purged(store.drop_last(), now);
        let kept = fresh_providers(store.last().1, now);
        if kept.len() > 0 {
            rest.push((store.last().0, kept))
        } else {
            rest
        }
    }
}

/// No two records are of the same file.
pub open spec fn distinct_files(store: Seq<(Seq<u8>, Seq<ProviderInfo>)>) -> bool {
    forall|i: int, j: int|
        0 <= i < j < store.len() ==> (#[trigger] store[i]).0 != (#[trigger] store[j]).0
}

pub proof fn lemma_record_position(store: Seq<(Seq<u8>, Seq<ProviderInfo>)>, hash: Seq<u8>)
    ensures
        -1 <= record_position(store, hash) < store.len(),
        record_position(store, hash) >= 0 ==> store[record_position(store, hash)].0 == hash,
        forall|i: int|
            0 <= i < store.len() && (#[trigger] store[i]).0 == hash ==> 0 <= record_position(
                store,
                hash,
            ) <= i,
    decreases store.len(),
{
    if store.len() > 0 {
        lemma_record_position(store.drop_last(), hash);
        assert forall|i: int| 0 <= i < store.len() && (#[trigger] store[i]).0
            == hash implies 0 <= record_position(store, hash) <= i by {
            if i < store.len() - 1 {
                assert(store.drop_last()[i] == store[i]);
            }
        }
    }
}

/// `providers_of` reads the record that `record_position` points at.
pub proof fn lemma_providers_of(store: Seq<(Seq<u8>, Seq<ProviderInfo>)>, hash: Seq<u8>)
    ensures
        providers_of(store, hash) == if record_position(store, hash) >= 0 {
            store[record_position(store, hash)].1
        } else {
            Seq::<ProviderInfo>::empty()
        },
    decreases store.len(),
{
    lemma_record_position(store, hash);
    if store.len() > 0 {
        let tail = store.drop_first();
        lemma_providers_of(tail, hash);
        lemma_record_position(tail, hash);
        if store[0].0 == hash {
            assert(record_position(store, hash) == 0);
        } else {
            let p = record_position(tail, hash);
            if p >= 0 {
                assert(tail[p] == store[p + 1]);
                assert forall|i: int| 0 <= i < p + 1 implies (#[trigger] store[i]).0 != hash by {
                    if i > 0 {
                        assert(tail[i - 1] == store[i]);
                    }
                }
                assert(record_position(store, hash) == p + 1);
            } else {
                assert forall|i: int| 0 <= i < store.len() implies (#[trigger] store[i]).0
                    != hash by {
                    if i > 0 {
                        assert(tail[i - 1] == store[i]);
                    }
                }
            }
        }
    }
}

impl View for ProviderStore {
    type V = Seq<(Seq<u8>, Seq<ProviderInfo>)>;

    /// File by file: the info-hash and its records.
    closed spec fn view(&self) -> Seq<(Seq<u8>, Seq<ProviderInfo>)> {
        Seq::new(
            self.records@.len(),
            |i: int| (self.records@[i].info_hash@, self.records@[i].providers@),
        )
    }
}

impl ProviderStore {
    /// No file has more than [`MAX_PROVIDERS`] records, and no file two lists.
    pub open spec fn wf(&self) -> bool {
        &&& distinct_files(self@)
        &&& forall|i: int| 0 <= i < self@.len() ==> (#[trigger] self@[i]).1.len() <= MAX_PROVIDERS
    }

    /// A store without records.
    pub fn new() -> (store: Self)
        ensures
            store.wf(),
            store@ == Seq::<(Seq<u8>, Seq<ProviderInfo>)>::empty(),
    {
        let store = ProviderStore { records: Vec::new() };
        assert(store@ =~= Seq::<(Seq<u8>, Seq<ProviderInfo>)>::empty());
        store
    }

    /// The number of files with a record.
    pub fn file_count(&self) -> (n: usize)
        ensures
            n == self@.len(),
    {
        self.records.len()
    }

    #[verifier::loop_isolation(false)]
    fn find(&self, info_hash: &InfoHash) -> (at: usize)
        ensures
            at <= self@.len(),
            at < self@.len() ==> record_position(self@, info_hash@) == at,
            at == self@.len() ==> record_position(self@, info_hash@) == -1,
    {
        proof {
            lemma_record_position(self@, info_hash@);
        }
        let mut i: usize = 0;
        while i < self.records.len()
            invariant
                i <= self.records@.len(),
                forall|k: int| 0 <= k < i ==> (#[trigger] self@[k]).0 != info_hash@,
            decreases self.records@.len() - i,
        {
            if same_id(&self.records[i].info_hash, info_hash) {
                assert(self@[i as int].0 == info_hash@);
                return i;
            }
            i += 1;
        }
        i
    }

    /// Records that the node `node_id` announced the file `info_hash` from
    /// `addr` at time `now`.
    #[verifier::loop_isolation(false)]
    pub fn add_provider(
        &mut self,
        info_hash: InfoHash,
        node_id: NodeId,
        addr: SocketAddress,
        now: u64,
    )
        requires
            old(self).wf(),
        ensures
            final(self).wf(),
            final(self)@ == store_after_announce(old(self)@, info_hash@, node_id, addr, now),
    {
        let at = self.find(&info_hash);
        let mut grown: Vec<ProviderInfo> = Vec::new();
        let ghost before: Seq<ProviderInfo> = if at < self.records@.len() {
            self.records@[at as int].providers@
        } else {
            Seq::empty()
        };
        proof {
            lemma_filter_ends(before, |p: ProviderInfo| p.node_id@ != node_id@);
            if at < self.records@.len() {
                assert(self@[at as int].1 == before);
            }
        }
        if at < self.records.len() {
            let list = &self.records[at].providers;
            let mut i: usize = 0;
            while i < list.len()
                invariant
                    i <= list@.len(),
                    list@ == before,
                    grown@ == without_node(before.take(i as int), node_id@),
                decreases list@.len() - i,
            {
                proof {
                    lemma_filter_step(before, |p: ProviderInfo| p.node_id@ != node_id@, i as int);
                }
                let p = list[i];
                if !same_id(&p.node_id, &node_id) {
                    grown.push(p);
                }
                i += 1;
            }
        }
        proof {
            lemma_filter_members(before, |p: ProviderInfo| p.node_id@ != node_id@);
            assert(grown@ == without_node(before, node_id@));
        }
        grown.push(ProviderInfo { node_id, addr, announced_at: now });
        let providers = if grown.len() > MAX_PROVIDERS {
            proof {
                lemma_most_recent_first(grown@);
            }
            let mut sorted = sort_most_recent_first(&grown);
            sorted.truncate(MAX_PROVIDERS);
            sorted
        } else {
            grown
        };
        assert(providers@ == providers_after_announce(before, node_id, addr, now));
        let record = ProviderRecord { info_hash, providers };
        if at < self.records.len() {
            self.records.set(at, record);
        } else {
            self.records.push(record);
        }
        proof {
            let expected = store_after_announce(old(self)@, info_hash@, node_id, addr, now);
            assert(self@ =~= expected);
            lemma_record_position(old(self)@, info_hash@);
            assert forall|i: int, j: int| 0 <= i < j < self@.len() implies (#[trigger] self@[i]).0
                != (#[trigger] self@[j]).0 by {
                if i < old(self)@.len() {
                    assert(self@[i].0 == old(self)@[i].0);
                }
                if j < old(self)@.len() {
                    assert(self@[j].0 == old(self)@[j].0);
                    assert(old(self)@[i].0 != old(self)@[j].0);
                } else {
                    assert(self@[j].0 == info_hash@);
                    assert(old(self)@[i].0 != info_hash@);
                }
            }
            assert forall|i: int| 0 <= i < self@.len() implies (#[trigger] self@[i]).1.len()
                <= MAX_PROVIDERS by {
                if i != at {
                    assert(self@[i] == old(self)@[i]);
                }
            }
        }
    }

    /// The contacts of the providers of `info_hash` whose record is
    /// younger than the time-to-live, in the order of their records.
    #[verifier::loop_isolation(false)]
    pub fn get_providers(&self, info_hash: &InfoHash, now: u64) -> (found: Vec<
        (NodeId, SocketAddress),
    >)
        ensures
            found@ == contacts_of(fresh_providers(providers_of(self@, info_hash@), now)),
    {
        let at = self.find(info_hash);
        let mut found: Vec<(NodeId, SocketAddress)> = Vec::new();
        proof {
            lemma_providers_of(self@, info_hash@);
        }
        let ghost list = providers_of(self@, info_hash@);
        proof {
            lemma_filter_ends(list, |p: ProviderInfo| provider_fresh(p, now));
        }
        if at < self.records.len() {
            let providers = &self.records[at].providers;
            assert(providers@ == list);
            let mut i: usize = 0;
            while i < providers.len()
                invariant
                    i <= providers@.len(),
                    found@ == contacts_of(fresh_providers(list.take(i as int), now)),
                decreases providers@.len() - i,
            {
                proof {
                    lemma_filter_step(list, |p: ProviderInfo| provider_fresh(p, now), i as int);
                }
                let p = providers[i];
                let ghost prior = found@;
                if elapsed_since(p.announced_at, now) < PROVIDER_TTL_MS {
                    found.push((p.node_id, p.addr));
                }
                proof {
                    assert(found@ =~= contacts_of(fresh_providers(list.take(i + 1), now)));
                }
                i += 1;
            }
        }
        proof {
            assert(found@ =~= contacts_of(fresh_providers(list, now)));
        }
        found
    }

    /// Drops the records older than the time-to-live, and the files left
    /// without any.
    #[verifier::loop_isolation(false)]
    pub fn purge(&mut self, now: u64)
        requires
            old(self).wf(),
        ensures
            final(self).wf(),
            final(self)@ == store_purged(old(self)@, now),
    {
        let mut kept: Vec<ProviderRecord> = Vec::new();
        let total = self.records.len();
        let mut done: usize = 0;
        let ghost kept_view: Seq<(Seq<u8>, Seq<ProviderInfo>)> = Seq::empty();
        while done < total
            invariant
                done <= total,
                total == old(self).records@.len(),
                self.records@.len() == total - done,
                forall|k: int|
                    0 <= k < self.records@.len() ==> #[trigger] self.records@[k] == old(
                        self,
                    ).records@[k + done],
                kept_view == store_purged(old(self)@.take(done as int), now),
                kept_view.len() == kept@.len(),
                forall|k: int|
                    0 <= k < kept@.len() ==> (#[trigger] kept@[k]).info_hash@ == kept_view[k].0
                        && kept@[k].providers@ == kept_view[k].1,
            decreases total - done,
        {
            let record = self.records.remove(0);
            proof {
                assert(record == old(self).records@[done as int]);
                assert(old(self)@.take(done + 1).drop_last() =~= old(self)@.take(done as int));
                assert(old(self)@.take(done + 1).last() == old(self)@[done as int]);
                lemma_filter_ends(record.providers@, |p: ProviderInfo| provider_fresh(p, now));
            }
            let mut fresh: Vec<ProviderInfo> = Vec::new();
            let mut i: usize = 0;
            while i < record.providers.len()
                invariant
                    i <= record.providers@.len(),
                    fresh@ == fresh_providers(record.providers@.take(i as int), now),
                decreases record.providers@.len() - i,
            {
                proof {
                    lemma_filter_step(
                        record.providers@,
                        |p: ProviderInfo| provider_fresh(p, now),
                        i as int,
                    );
                }
                let p = record.providers[i];
                if elapsed_since(p.announced_at, now) < PROVIDER_TTL_MS {
                    fresh.push(p);
                }
                i += 1;
            }
            if fresh.len() > 0 {
                proof {
                    kept_view = kept_view.push((record.info_hash@, fresh@));
                }
                kept.push(ProviderRecord { info_hash: record.info_hash, providers: fresh });
            }
            done += 1;
        }
        self.records = kept;
        proof {
            assert(old(self)@.take(total as int) =~= old(self)@);
            assert(self@ =~= kept_view);
            lemma_store_purged_shape(old(self)@, now);
        }
    }

    /// The number of provider records of all files together.
    #[verifier::loop_isolation(false)]
    pub fn provider_count(&self) -> (n: usize)
        requires
            self.wf(),
            self@.len() <= usize::MAX / MAX_PROVIDERS,
        ensures
            n == total_providers(self@),
    {
        let mut n: usize = 0;
        let mut i: usize = 0;
        while i < self.records.len()
            invariant
                i <= self.records@.len(),
                n == total_providers(self@.take(i as int)),
                n <= i * MAX_PROVIDERS,
            decreases self.records@.len() - i,
        {
            proof {
                assert(self@.take(i + 1).drop_last() =~= self@.take(i as int));
                assert(self@[i as int].1.len() <= MAX_PROVIDERS);
                assert(i * MAX_PROVIDERS + MAX_PROVIDERS <= usize::MAX) by (nonlinear_arith)
                    requires
                        i < self@.len(),
                        self@.len() <= usize::MAX / MAX_PROVIDERS,
                        MAX_PROVIDERS == 100,
                ;
            }
            n = n + self.records[i].providers.len();
            i += 1;
        }
        proof {
            assert(self@.take(i as int) =~= self@);
        }
        n
    }
}

/// The number of records of all files together.
pub open spec fn total_providers(store: Seq<(Seq<u8>, Seq<ProviderInfo>)>) -> nat
    decreases store.len(),
{
    if store.len() == 0 {
        0
    } else {
        total_providers(store.drop_last()) + store.last().1.len()
    }
}

/// A purge keeps files apart and lists within their bound, and every file
/// it keeps was there before.
pub proof fn lemma_store_purged_shape(store: Seq<(Seq<u8>, Seq<ProviderInfo>)>, now: u64)
    requires
        distinct_files(store),
        forall|i: int| 0 <= i < store.len() ==> (#[trigger] store[i]).1.len() <= MAX_PROVIDERS,
    ensures
        distinct_files(store_purged(store, now)),
        forall|i: int|
            0 <= i < store_purged(store, now).len() ==> 0 < (#[trigger] store_purged(
                store,
                now,
            )[i]).1.len() <= MAX_PROVIDERS,
        forall|k: int|
            0 <= k < store_purged(store, now).len() ==> exists|i: int|
                0 <= i < store.len() && (#[trigger] store[i]).0 == (#[trigger] store_purged(
                    store,
                    now,
                )[k]).0,
        store_purged(store, now).len() <= store.len(),
    decreases store.len(),
{
    if store.len() > 0 {
        let rest = store.drop_last();
        assert forall|i: int, j: int| 0 <= i < j < rest.len() implies (#[trigger] rest[i]).0 != (
        #[trigger] rest[j]).0 by {
            assert(rest[i] == store[i] && rest[j] == store[j]);
        }
        assert forall|i: int| 0 <= i < rest.len() implies (#[trigger] rest[i]).1.len()
            <= MAX_PROVIDERS by {
            assert(rest[i] == store[i]);
        }
        lemma_store_purged_shape(rest, now);
        let out = store_purged(store, now);
        let sub = store_purged(rest, now);
        lemma_filter_members(store.last().1, |p: ProviderInfo| provider_fresh(p, now));
        assert forall|k: int| 0 <= k < out.len() implies exists|i: int|
            0 <= i < store.len() && (#[trigger] store[i]).0 == (#[trigger] out[k]).0 by {
            if k < sub.len() {
                let i = choose|i: int| 0 <= i < rest.len() && (#[trigger] rest[i]).0 == sub[k].0;
                assert(store[i] == rest[i]);
            } else {
                assert(store[store.len() - 1].0 == out[k].0);
            }
        }
        assert forall|i: int, j: int| 0 <= i < j < out.len() implies (#[trigger] out[i]).0 != (
        #[trigger] out[j]).0 by {
            if j >= sub.len() {
                let m = choose|m: int| 0 <= m < rest.len() && (#[trigger] rest[m]).0 == sub[i].0;
                assert(store[m] == rest[m]);
                assert(store[m].0 != store[store.len() - 1].0);
            }
        }
    }
}

} // verus!
