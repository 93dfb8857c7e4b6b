//! The Kademlia routing table: 256 k-buckets, one per distance bit.

use vstd::prelude::*;
use crate::bootstrap::stats::{elapsed_ms, elapsed_since};
use crate::grid::dht::{
    big_endian,
    bucket_index,
    distance_less,
    is_leading_bit,
    lemma_big_endian_injective,
    lemma_distance_injective,
    same_id,
    spec_bucket_index,
    xor_bytes,
    xor_distance,
    NodeId,
};
use crate::net::SocketAddress;
use crate::seq_util::{lemma_filter_ends, lemma_filter_members, lemma_filter_step};

verus! {

/// Entries that one k-bucket holds at most.
pub const K_BUCKET_SIZE: usize = 20;

/// Number of k-buckets: one per bit of an identifier.
pub const BUCKET_COUNT: usize = 256;

/// A full bucket gives up its least recently seen entry only when that
/// entry has not been seen for longer than this (5 minutes).
pub const REPLACE_AFTER_MS: u64 = 300_000;

/// Entries not seen for this long (15 minutes) are purged.
pub const ROUTING_TTL_MS: u64 = 900_000;

/// One known node.
#[derive(Clone, Copy, Debug)]
pub struct RoutingEntry {
    pub node_id: NodeId,
    pub addr: SocketAddress,
    pub last_seen: u64,
}

/// What became of an entry offered to a bucket.
#[derive(Clone, Copy, Debug, PartialEq, Eq, Structural)]
pub enum BucketInsert {
    /// The node was known: its address and time were refreshed.
    Refreshed,
    /// The node is new and the bucket had room.
    Added,
    /// The node is new and took the place of a node long unseen.
    Replaced,
    /// The bucket is full of nodes seen recently: the entry was dropped.
    Rejected,
}

impl BucketInsert {
    /// Whether a node that was not in the table before is in it now.
    pub open spec fn spec_is_new(self) -> bool {
        self is Added || self is Replaced
    }

    pub fn is_new(&self) -> (r: bool)
        ensures
            r == self.spec_is_new(),
    {
        match self {
            BucketInsert::Added => true,
            BucketInsert::Replaced => true,
            _ => false,
        }
    }
}

/// The distance from `id` to `target` as a number.
pub open spec fn distance_to(id: Seq<u8>, target: Seq<u8>) -> nat {
    big_endian(xor_bytes(id, target))
}

/// The first position at which `entries` holds the node `id`, or -1.
pub open spec fn position_of(entries: Seq<RoutingEntry>, id: Seq<u8>) -> int
    decreases entries.len(),
{
    if entries.len() == 0 {
        -1
    } else {
        let p = position_of(entries.drop_last(), id);
        if p >= 0 {
            p
        } else if entries.last().node_id@ == id {
            entries.len() - 1
        } else {
            -1
        }
    }
}

/// The first position of an entry that was seen the longest ago, or -1
/// where there is no entry.
pub open spec fn oldest_position(entries: Seq<RoutingEntry>) -> int
    decreases entries.len(),
{
    if entries.len() == 0 {
        -1
    } else if entries.len() == 1 {
        0
    } else {
        let p = oldest_position(entries.drop_last());
        if entries.last().last_seen < entries[p].last_seen {
            entries.len() - 1
        } else {
            p
        }
    }
}

/// No two entries are the same node.
pub open spec fn distinct_ids(entries: Seq<RoutingEntry>) -> bool {
    forall|i: int, j: int|
        0 <= i < j < entries.len() ==> (#[trigger] entries[i]).node_id@ != (
        #[trigger] entries[j]).node_id@
}

/// The bucket and the outcome after `entry` was offered at time `now`.
pub open spec fn bucket_add_result(
    entries: Seq<RoutingEntry>,
    capacity: nat,
    entry: RoutingEntry,
    now: u64,
) -> (Seq<RoutingEntry>, BucketInsert) {
    let known = position_of(entries, entry.node_id@);
    let oldest = oldest_position(entries);
    if known >= 0 {
        (
            entries.update(
                known,
                RoutingEntry {
                    node_id: entries[known].node_id,
                    addr: entry.addr,
                    last_seen: entry.last_seen,
                },
            ),
            BucketInsert::Refreshed,
        )
    } else if entries.len() < capacity {
        (entries.push(entry), BucketInsert::Added)
    } else if oldest >= 0 && elapsed_ms(entries[oldest].last_seen, now) > REPLACE_AFTER_MS {
        (entries.update(oldest, entry), BucketInsert::Replaced)
    } else {
        (entries, BucketInsert::Rejected)
    }
}

/// Whether an entry was seen within the routing time-to-live.
pub open spec fn entry_fresh(entry: RoutingEntry, now: u64) -> bool {
    elapsed_ms(entry.last_seen, now) < ROUTING_TTL_MS
}

/// The entries that survive a purge at time `now`, in their order.
pub open spec fn fresh_entries(entries: Seq<RoutingEntry>, now: u64) -> Seq<RoutingEntry> {
    entries.filter(|e: RoutingEntry| entry_fresh(e, now))
}

/// `position_of` finds the node where it is and only there.
pub proof fn lemma_position_of(entries: Seq<RoutingEntry>, id: Seq<u8>)
    ensures
        -1 <= position_of(entries, id) < entries.len(),
        position_of(entries, id) >= 0 ==> entries[position_of(entries, id)].node_id@ == id,
        forall|i: int|
            0 <= i < entries.len() && (#[trigger] entries[i]).node_id@ == id ==> 0 <= position_of(
                entries,
                id,
            ) <= i,
    decreases entries.len(),
{
    if entries.len() > 0 {
        lemma_position_of(entries.drop_last(), id);
        assert forall|i: int| 0 <= i < entries.len() && (#[trigger] entries[i]).node_id@
            == id implies 0 <= position_of(entries, id) <= i by {
            if i < entries.len() - 1 {
                assert(entries.drop_last()[i] == entries[i]);
            }
        }
    }
}

/// `oldest_position` finds an entry that none was seen before, and the
/// first of those.
pub proof fn lemma_oldest_position(entries: Seq<RoutingEntry>)
    requires
        entries.len() > 0,
    ensures
        0 <= oldest_position(entries) < entries.len(),
        forall|i: int|
            0 <= i < entries.len() ==> entries[oldest_position(entries)].last_seen <= (
            #[trigger] entries[i]).last_seen,
        forall|i: int|
            0 <= i < oldest_position(entries) ==> entries[oldest_position(entries)].last_seen < (
            #[trigger] entries[i]).last_seen,
    decreases entries.len(),
{
    if entries.len() > 1 {
        let rest = entries.drop_last();
        lemma_oldest_position(rest);
        let p = oldest_position(rest);
        assert(rest[p] == entries[p]);
        assert forall|i: int| 0 <= i < entries.len() implies entries[oldest_position(
            entries,
        )].last_seen <= (#[trigger] entries[i]).last_seen by {
            if i < entries.len() - 1 {
                assert(rest[i] == entries[i]);
            }
        }
        assert forall|i: int| 0 <= i < oldest_position(entries) implies entries[oldest_position(
            entries,
        )].last_seen < (#[trigger] entries[i]).last_seen by {
            if i < entries.len() - 1 {
                assert(rest[i] == entries[i]);
            }
        }
    }
}

/// Offering an entry never lets a bucket outgrow its capacity nor hold a
/// node twice.
pub proof fn lemma_bucket_add_keeps_shape(
    entries: Seq<RoutingEntry>,
    capacity: nat,
    entry: RoutingEntry,
    now: u64,
)
    requires
        entries.len() <= capacity,
        distinct_ids(entries),
    ensures
        bucket_add_result(entries, capacity, entry, now).0.len() <= capacity,
        distinct_ids(bucket_add_result(entries, capacity, entry, now).0),
        bucket_add_result(entries, capacity, entry, now).0.len() >= entries.len(),
{
    lemma_position_of(entries, entry.node_id@);
    let after = bucket_add_result(entries, capacity, entry, now).0;
    if entries.len() > 0 {
        lemma_oldest_position(entries);
    }
    assert forall|i: int, j: int| 0 <= i < j < after.len() implies (#[trigger] after[i]).node_id@
        != (#[trigger] after[j]).node_id@ by {
        if i < entries.len() && j < entries.len() {
            assert(entries[i].node_id@ != entries[j].node_id@);
        }
    }
}

/// One k-bucket: the known nodes at one distance prefix.
#[derive(Debug)]
pub struct KBucket {
    entries: Vec<RoutingEntry>,
    capacity: usize,
}

impl View for KBucket {
    type V = Seq<RoutingEntry>;

    closed spec fn view(&self) -> Seq<RoutingEntry> {
        self.entries@
    }
}

impl KBucket {
    /// The bucket holds no more than its capacity and no node twice.
    pub closed spec fn wf(&self) -> bool {
        &&& self.entries@.len() <= self.capacity
        &&& distinct_ids(self.entries@)
    }

    /// The most entries the bucket takes.
    pub closed spec fn spec_capacity(&self) -> nat {
        self.capacity as nat
    }

    pub proof fn lemma_wf(&self)
        ensures
            self.wf() <==> self@.len() <= self.spec_capacity() && distinct_ids(self@),
    {
    }

    /// An empty bucket that takes up to `capacity` entries.
    pub fn new(capacity: usize) -> (bucket: Self)
        ensures
            bucket.wf(),
            bucket@ == Seq::<RoutingEntry>::empty(),
            bucket.spec_capacity() == capacity,
    {
        KBucket { entries: Vec::new(), capacity }
    }

    /// The number of entries.
    pub fn len(&self) -> (n: usize)
        ensures
            n == self@.len(),
    {
        self.entries.len()
    }

    /// The entry at `index`.
    pub fn get(&self, index: usize) -> (entry: RoutingEntry)
        requires
            index < self@.len(),
        ensures
            entry == self@[index as int],
    {
        self.entries[index]
    }

    /// Offers `entry` to the bucket at time `now`. A known node is
    /// refreshed; a new one is added while there is room; in a full bucket
    /// it replaces the least recently seen entry if that one has been silent
    /// for more than five minutes, and is dropped otherwise.
    #[verifier::loop_isolation(false)]
    pub fn add(&mut self, entry: RoutingEntry, now: u64) -> (outcome: BucketInsert)
        requires
            old(self).wf(),
        ensures
            final(self).wf(),
            final(self).spec_capacity() == old(self).spec_capacity(),
            (final(self)@, outcome) == bucket_add_result(
                old(self)@,
                old(self).spec_capacity(),
                entry,
                now,
            ),
    {
        proof {
            lemma_bucket_add_keeps_shape(self.entries@, self.capacity as nat, entry, now);
            lemma_position_of(self.entries@, entry.node_id@);
        }
        let n = self.entries.len();
        let mut i: usize = 0;
        while i < n
            invariant
                i <= n,
                n == self.entries@.len(),
                self.entries@ == old(self).entries@,
                self.capacity == old(self).capacity,
                forall|k: int| 0 <= k < i ==> self.entries@[k].node_id@ != entry.node_id@,
            decreases n - i,
        {
            let existing = self.entries[i];
            if same_id(&existing.node_id, &entry.node_id) {
                self.entries.set(
                    i,
                    RoutingEntry {
                        node_id: existing.node_id,
                        addr: entry.addr,
                        last_seen: entry.last_seen,
                    },
                );
                return BucketInsert::Refreshed;
            }
            i += 1;
        }
        if n < self.capacity {
            self.entries.push(entry);
            return BucketInsert::Added;
        }
        if n == 0 {
            return BucketInsert::Rejected;
        }
        let mut oldest: usize = 0;
        let mut j: usize = 1;
        proof {
            assert(self.entries@.take(1).drop_last().len() == 0);
        }
        while j < n
            invariant
                1 <= j <= n,
                n == self.entries@.len(),
                self.entries@ == old(self).entries@,
                self.capacity == old(self).capacity,
                oldest == oldest_position(self.entries@.take(j as int)),
                0 <= oldest < j,
            decreases n - j,
        {
            proof {
                assert(self.entries@.take(j + 1).drop_last() =~= self.entries@.take(j as int));
            }
            if self.entries[j].last_seen < self.entries[oldest].last_seen {
                oldest = j;
            }
            j += 1;
        }
        proof {
            assert(self.entries@.take(n as int) =~= self.entries@);
        }
        if elapsed_since(self.entries[oldest].last_seen, now) > REPLACE_AFTER_MS {
            self.entries.set(oldest, entry);
            BucketInsert::Replaced
        } else {
            BucketInsert::Rejected
        }
    }

    /// Drops the entries not seen within the routing time-to-live and says
    /// how many were dropped.
    #[verifier::loop_isolation(false)]
    pub fn purge(&mut self, now: u64) -> (removed: usize)
        requires
            old(self).wf(),
        ensures
            final(self).wf(),
            final(self).spec_capacity() == old(self).spec_capacity(),
            final(self)@ == fresh_entries(old(self)@, now),
            removed == old(self)@.len() - final(self)@.len(),
    {
        let n = self.entries.len();
        let mut kept: Vec<RoutingEntry> = Vec::new();
        let mut i: usize = 0;
        proof {
            lemma_filter_ends(self.entries@, |e: RoutingEntry| entry_fresh(e, now));
        }
        while i < n
            invariant
                i <= n,
                n == self.entries@.len(),
                self.entries@ == old(self).entries@,
                self.capacity == old(self).capacity,
                kept@ == fresh_entries(self.entries@.take(i as int), now),
                kept@.len() <= i,
            decreases n - i,
        {
            proof {
                lemma_filter_step(self.entries@, |e: RoutingEntry| entry_fresh(e, now), i as int);
            }
            let e = self.entries[i];
            if elapsed_since(e.last_seen, now) < ROUTING_TTL_MS {
                kept.push(e);
            }
            i += 1;
        }
        proof {
            lemma_filter_ends(self.entries@, |e: RoutingEntry| entry_fresh(e, now));
            lemma_fresh_entries_distinct(self.entries@, now);
        }
        let removed = n - kept.len();
        self.entries = kept;
        removed
    }
}

/// A purge keeps the entries apart that were apart before.
pub proof fn lemma_fresh_entries_distinct(entries: Seq<RoutingEntry>, now: u64)
    requires
        distinct_ids(entries),
    ensures
        distinct_ids(fresh_entries(entries, now)),
        fresh_entries(entries, now).len() <= entries.len(),
        forall|k: int|
            0 <= k < fresh_entries(entries, now).len() ==> entries.contains(
                #[trigger] fresh_entries(entries, now)[k],
            ),
    decreases entries.len(),
{
    reveal(Seq::filter);
    let pred = |e: RoutingEntry| entry_fresh(e, now);
    lemma_filter_members(entries, pred);
    if entries.len() > 0 {
        let rest = entries.drop_last();
        assert forall|i: int, j: int| 0 <= i < j < rest.len() implies (#[trigger] rest[i]).node_id@
            != (#[trigger] rest[j]).node_id@ by {
            assert(rest[i] == entries[i] && rest[j] == entries[j]);
        }
        lemma_fresh_entries_distinct(rest, now);
        lemma_filter_members(rest, pred);
        let out = fresh_entries(entries, now);
        let sub = fresh_entries(rest, now);
        assert forall|i: int, j: int| 0 <= i < j < out.len() implies (#[trigger] out[i]).node_id@
            != (#[trigger] out[j]).node_id@ by {
            if j < sub.len() {
                assert(sub[i].node_id@ != sub[j].node_id@);
            } else {
                assert(out[j] == entries.last());
                assert(rest.contains(sub[i]));
                let k = choose|k: int| 0 <= k < rest.len() && rest[k] == sub[i];
                assert(entries[k] == rest[k]);
                assert(entries[k].node_id@ != entries[entries.len() - 1].node_id@);
            }
        }
    }
}

/// Every entry of every bucket, bucket after bucket.
pub open spec fn all_entries(table: Seq<Seq<RoutingEntry>>) -> Seq<RoutingEntry>
    decreases table.len(),
{
    if table.len() == 0 {
        Seq::empty()
    } else {
        all_entries(table.drop_last()) + table.last()
    }
}

/// The table after `entry` was offered to the bucket of its distance from
/// `local`, and what became of it.
pub open spec fn table_add_result(
    table: Seq<Seq<RoutingEntry>>,
    local: Seq<u8>,
    entry: RoutingEntry,
    now: u64,
) -> (Seq<Seq<RoutingEntry>>, BucketInsert) {
    let b = spec_bucket_index(local, entry.node_id@);
    let r = bucket_add_result(table[b], K_BUCKET_SIZE as nat, entry, now);
    (table.update(b, r.0), r.1)
}

/// The table after a purge at time `now`.
pub open spec fn table_purged(table: Seq<Seq<RoutingEntry>>, now: u64) -> Seq<Seq<RoutingEntry>> {
    Seq::new(table.len(), |b: int| fresh_entries(table[b], now))
}

/// Whether the node `id` is among the picked.
pub open spec fn picked_has(picked: Seq<(NodeId, SocketAddress)>, id: Seq<u8>) -> bool {
    exists|k: int| 0 <= k < picked.len() && (#[trigger] picked[k]).0@ == id
}

/// Whether `known` holds a node with this identifier and address.
pub open spec fn known_has(known: Seq<RoutingEntry>, id: Seq<u8>, addr: SocketAddress) -> bool {
    exists|i: int|
        0 <= i < known.len() && (#[trigger] known[i]).node_id@ == id && known[i].addr == addr
}

/// `picked` are the up to `count` nodes of `known` that are closest to
/// `target`, nearest first: each is a known node, they come in strictly
/// growing distance, and a known node is left out only if `count` nodes
/// were picked that are all closer than it.
pub open spec fn is_closest_selection(
    known: Seq<RoutingEntry>,
    target: Seq<u8>,
    count: nat,
    picked: Seq<(NodeId, SocketAddress)>,
) -> bool {
    &&& picked.len() <= count
    &&& forall|k: int|
        0 <= k < picked.len() ==> known_has(known, (#[trigger] picked[k]).0@, picked[k].1)
    &&& forall|j: int, k: int|
        0 <= j < k < picked.len() ==> distance_to((#[trigger] picked[j]).0@, target) < distance_to(
            (#[trigger] picked[k]).0@,
            target,
        )
    &&& forall|i: int|
        0 <= i < known.len() ==> picked_has(picked, (#[trigger] known[i]).node_id@) || (picked.len()
            == count && forall|k: int|
            0 <= k < picked.len() ==> distance_to((#[trigger] picked[k]).0@, target) < distance_to(
                known[i].node_id@,
                target,
            ))
}

/// The addresses of the first entry of every bucket that has one, in the
/// order of the buckets.
pub open spec fn first_contacts_of(table: Seq<Seq<RoutingEntry>>) -> Seq<SocketAddress>
    decreases table.len(),
{
    if table.len() == 0 {
        Seq::empty()
    } else if table.last().len() > 0 {
        first_contacts_of(table.drop_last()).push(table.last()[0].addr)
    } else {
        first_contacts_of(table.drop_last())
    }
}

/// Whether some bucket holds `entry`.
pub open spec fn in_table(table: Seq<Seq<RoutingEntry>>, entry: RoutingEntry) -> bool {
    exists|b: int, i: int|
        0 <= b < table.len() && 0 <= i < table[b].len() && #[trigger] table[b][i] == entry
}

/// What `all_entries` holds is what the buckets hold.
pub proof fn lemma_all_entries(table: Seq<Seq<RoutingEntry>>)
    ensures
        forall|b: int, i: int|
            0 <= b < table.len() && 0 <= i < table[b].len() ==> all_entries(table).contains(
                #[trigger] table[b][i],
            ),
        forall|k: int|
            0 <= k < all_entries(table).len() ==> in_table(table, #[trigger] all_entries(table)[k]),
    decreases table.len(),
{
    if table.len() > 0 {
        let rest = table.drop_last();
        lemma_all_entries(rest);
        let flat = all_entries(table);
        let head = all_entries(rest);
        assert forall|b: int, i: int| 0 <= b < table.len() && 0 <= i < table[b].len() implies flat.contains(
            #[trigger] table[b][i],
        ) by {
            if b < rest.len() {
                assert(rest[b] == table[b]);
                assert(head.contains(rest[b][i]));
                let k = choose|k: int| 0 <= k < head.len() && head[k] == rest[b][i];
                assert(flat[k] == table[b][i]);
            } else {
                assert(flat[head.len() + i] == table[b][i]);
            }
        }
        assert forall|k: int| 0 <= k < flat.len() implies in_table(table, #[trigger] flat[k]) by {
            if k < head.len() {
                assert(head[k] == flat[k]);
                assert(in_table(rest, head[k]));
                let (b, i) = choose|b: int, i: int|
                    0 <= b < rest.len() && 0 <= i < rest[b].len() && #[trigger] rest[b][i]
                        == head[k];
                assert(table[b][i] == flat[k]);
            } else {
                assert(table[table.len() - 1][k - head.len()] == flat[k]);
            }
        }
    }
}

/// The up to `count` nodes of `known` that are closest to `target`,
/// nearest first.
#[verifier::loop_isolation(false)]
pub fn closest_nodes(known: &Vec<RoutingEntry>, target: &NodeId, count: usize) -> (picked: Vec<
    (NodeId, SocketAddress),
>)
    ensures
        is_closest_selection(known@, target@, count as nat, picked@),
{
    let mut picked: Vec<(NodeId, SocketAddress)> = Vec::new();
    let mut last: [u8; 32] = [0u8; 32];
    let n = known.len();
    while picked.len() < count
        invariant
            picked@.len() <= count,
            picked@.len() > 0 ==> big_endian(last@) == distance_to(
                picked@[picked@.len() - 1].0@,
                target@,
            ),
            forall|k: int|
                0 <= k < picked@.len() ==> known_has(known@, (#[trigger] picked@[k]).0@, picked@[k].1),
            forall|j: int, k: int|
                0 <= j < k < picked@.len() ==> distance_to((#[trigger] picked@[j]).0@, target@)
                    < distance_to((#[trigger] picked@[k]).0@, target@),
            forall|i: int|
                0 <= i < n && picked@.len() > 0 && distance_to(
                    (#[trigger] known@[i]).node_id@,
                    target@,
                ) <= big_endian(last@) ==> picked_has(picked@, known@[i].node_id@),
        decreases count - picked@.len(),
    {
        let mut best: usize = n;
        let mut best_distance: [u8; 32] = [0u8; 32];
        let mut i: usize = 0;
        while i < n
            invariant
                i <= n,
                best <= n,
                best < n ==> best < i && big_endian(best_distance@) == distance_to(
                    known@[best as int].node_id@,
                    target@,
                ) && (picked@.len() > 0 ==> big_endian(last@) < big_endian(best_distance@)),
                forall|k: int|
                    0 <= k < i && (picked@.len() > 0 ==> big_endian(last@) < distance_to(
                        (#[trigger] known@[k]).node_id@,
                        target@,
                    )) ==> best < n && big_endian(best_distance@) <= distance_to(
                        known@[k].node_id@,
                        target@,
                    ),
            decreases n - i,
        {
            let entry = known[i];
            let d = xor_distance(&entry.node_id, target);
            let above = picked.len() == 0 || distance_less(&last, &d);
            if above && (best == n || distance_less(&d, &best_distance)) {
                best = i;
                best_distance = d;
            }
            i += 1;
        }
        if best == n {
            proof {
                assert forall|i: int| 0 <= i < known@.len() implies picked_has(
                    picked@,
                    (#[trigger] known@[i]).node_id@,
                ) by {}
            }
            return picked;
        }
        let chosen = known[best];
        let ghost before = picked@;
        picked.push((chosen.node_id, chosen.addr));
        proof {
            let at = before.len() as int;
            assert(picked@[at].0@ == chosen.node_id@);
            assert(known_has(known@, picked@[at].0@, picked@[at].1));
            assert forall|k: int| 0 <= k < picked@.len() implies known_has(
                known@,
                (#[trigger] picked@[k]).0@,
                picked@[k].1,
            ) by {
                if k < at {
                    assert(picked@[k] == before[k]);
                }
            }
            assert forall|j: int, k: int| 0 <= j < k < picked@.len() implies distance_to(
                (#[trigger] picked@[j]).0@,
                target@,
            ) < distance_to((#[trigger] picked@[k]).0@, target@) by {
                assert(picked@[j] == before[j]);
                if k < at {
                    assert(picked@[k] == before[k]);
                } else if j < at - 1 {
                    assert(distance_to(before[j].0@, target@) < distance_to(
                        before[at - 1].0@,
                        target@,
                    ));
                }
            }
            assert forall|i: int|
                0 <= i < n && distance_to((#[trigger] known@[i]).node_id@, target@) <= big_endian(
                    best_distance@,
                ) implies picked_has(picked@, known@[i].node_id@) by {
                let di = distance_to(known@[i].node_id@, target@);
                if before.len() > 0 && di <= big_endian(last@) {
                    assert(picked_has(before, known@[i].node_id@));
                    let k = choose|k: int|
                        0 <= k < before.len() && (#[trigger] before[k]).0@ == known@[i].node_id@;
                    assert(picked@[k] == before[k]);
                } else {
                    assert(di == big_endian(best_distance@));
                    lemma_big_endian_injective(
                        xor_bytes(known@[i].node_id@, target@),
                        xor_bytes(chosen.node_id@, target@),
                    );
                    lemma_distance_injective(known@[i].node_id@, chosen.node_id@, target@);
                    assert(picked@[at].0@ == known@[i].node_id@);
                }
            }
        }
        last = best_distance;
    }
    proof {
        assert forall|i: int| 0 <= i < known@.len() implies picked_has(
            picked@,
            (#[trigger] known@[i]).node_id@,
        ) || (picked@.len() == count && forall|k: int|
            0 <= k < picked@.len() ==> distance_to((#[trigger] picked@[k]).0@, target@)
                < distance_to(known@[i].node_id@, target@)) by {
            if picked@.len() > 0 && !picked_has(picked@, known@[i].node_id@) {
                let top = picked@.len() - 1;
                assert forall|k: int| 0 <= k < picked@.len() implies distance_to(
                    (#[trigger] picked@[k]).0@,
                    target@,
                ) < distance_to(known@[i].node_id@, target@) by {
                    if k < top {
                        assert(distance_to(picked@[k].0@, target@) < distance_to(
                            picked@[top].0@,
                            target@,
                        ));
                    }
                }
            }
        }
    }
    picked
}

/// The routing table of one node.
#[derive(Debug)]
pub struct RoutingTable {
    local_id: NodeId,
    buckets: Vec<KBucket>,
}

impl View for RoutingTable {
    type V = Seq<Seq<RoutingEntry>>;

    /// The entries of each bucket, by bucket index.
    closed spec fn view(&self) -> Seq<Seq<RoutingEntry>> {
        Seq::new(self.buckets@.len(), |b: int| self.buckets@[b]@)
    }
}

/// The shape every routing table keeps: 256 buckets of at most 20 distinct
/// nodes, each node in the bucket of its distance from `local`.
pub open spec fn table_shape(table: Seq<Seq<RoutingEntry>>, local: Seq<u8>) -> bool {
    &&& table.len() == BUCKET_COUNT
    &&& forall|b: int|
        0 <= b < table.len() ==> (#[trigger] table[b]).len() <= K_BUCKET_SIZE && distinct_ids(
            table[b],
        )
    &&& forall|b: int, i: int|
        0 <= b < table.len() && 0 <= i < table[b].len() ==> spec_bucket_index(
            local,
            (#[trigger] table[b][i]).node_id@,
        ) == b
}

impl RoutingTable {
    /// The identifier of the node that owns the table.
    pub closed spec fn local(&self) -> Seq<u8> {
        self.local_id@
    }

    /// The table has the shape of [`table_shape`].
    pub closed spec fn wf(&self) -> bool {
        &&& table_shape(self@, self.local_id@)
        &&& forall|b: int|
            0 <= b < self.buckets@.len() ==> (#[trigger] self.buckets@[b]).wf()
                && self.buckets@[b].spec_capacity() == K_BUCKET_SIZE
    }

    pub proof fn lemma_wf(&self)
        ensures
            self.wf() ==> table_shape(self@, self.local()),
    {
    }

    /// An empty table for the node `local_id`.
    pub fn new(local_id: NodeId) -> (table: Self)
        ensures
            table.wf(),
            table.local() == local_id@,
            table@ == Seq::new(BUCKET_COUNT as nat, |b: int| Seq::<RoutingEntry>::empty()),
    {
        let mut buckets: Vec<KBucket> = Vec::new();
        while buckets.len() < BUCKET_COUNT
            invariant
                buckets@.len() <= BUCKET_COUNT,
                forall|b: int|
                    0 <= b < buckets@.len() ==> (#[trigger] buckets@[b]).wf()
                        && buckets@[b].spec_capacity() == K_BUCKET_SIZE && buckets@[b]@
                        == Seq::<RoutingEntry>::empty(),
            decreases BUCKET_COUNT - buckets@.len(),
        {
            buckets.push(KBucket::new(K_BUCKET_SIZE));
        }
        let table = RoutingTable { local_id, buckets };
        proof {
            assert(table@ =~= Seq::new(
                BUCKET_COUNT as nat,
                |b: int| Seq::<RoutingEntry>::empty(),
            ));
        }
        table
    }

    /// The identifier of the node that owns the table.
    pub fn local_id(&self) -> (id: NodeId)
        ensures
            id@ == self.local(),
    {
        self.local_id
    }

    /// Records that the node `node_id` was heard from at `addr` at time
    /// `now`, in the bucket of its distance.
    pub fn add_node(&mut self, node_id: NodeId, addr: SocketAddress, now: u64) -> (outcome:
        BucketInsert)
        requires
            old(self).wf(),
        ensures
            final(self).wf(),
            final(self).local() == old(self).local(),
            (final(self)@, outcome) == table_add_result(
                old(self)@,
                old(self).local(),
                RoutingEntry { node_id, addr, last_seen: now },
                now,
            ),
    {
        let entry = RoutingEntry { node_id, addr, last_seen: now };
        let index = bucket_index(&self.local_id, &node_id);
        proof {
            let before = self.buckets@[index as int]@;
            lemma_bucket_add_keeps_shape(before, K_BUCKET_SIZE as nat, entry, now);
            lemma_position_of(before, node_id@);
            if before.len() > 0 {
                lemma_oldest_position(before);
            }
            assert(self@[index as int] == before);
        }
        let mut bucket = self.buckets.remove(index);
        let outcome = bucket.add(entry, now);
        self.buckets.insert(index, bucket);
        proof {
            let expected = table_add_result(old(self)@, old(self).local(), entry, now).0;
            assert(self.buckets@.len() == old(self).buckets@.len());
            assert forall|b: int| 0 <= b < self.buckets@.len() implies (
            #[trigger] self.buckets@[b]).wf() && self.buckets@[b].spec_capacity()
                == K_BUCKET_SIZE && self@[b] == expected[b] by {
                if b != index {
                    assert(self.buckets@[b] == old(self).buckets@[b]);
                    assert(old(self)@[b] == old(self).buckets@[b]@);
                }
            }
            assert(self@ =~= expected);
            assert forall|b: int, i: int|
                0 <= b < self@.len() && 0 <= i < self@[b].len() implies spec_bucket_index(
                self.local_id@,
                (#[trigger] self@[b][i]).node_id@,
            ) == b by {
                if b != index {
                    assert(self@[b][i] == old(self)@[b][i]);
                } else {
                    let before = old(self)@[b];
                    if i < before.len() {
                        assert(before[i].node_id@ == old(self)@[b][i].node_id@);
                    }
                }
            }
            assert forall|b: int| 0 <= b < self@.len() implies (#[trigger] self@[b]).len()
                <= K_BUCKET_SIZE && distinct_ids(self@[b]) by {
                self.buckets@[b].lemma_wf();
            }
        }
        outcome
    }

    /// The number of nodes in the table.
    pub fn len(&self) -> (n: usize)
        requires
            self.wf(),
        ensures
            n == all_entries(self@).len(),
            n <= BUCKET_COUNT * K_BUCKET_SIZE,
    {
        let mut n: usize = 0;
        let mut b: usize = 0;
        while b < self.buckets.len()
            invariant
                self.wf(),
                b <= self.buckets@.len(),
                self.buckets@.len() == BUCKET_COUNT,
                n == all_entries(self@.take(b as int)).len(),
                n <= b * K_BUCKET_SIZE,
            decreases self.buckets@.len() - b,
        {
            proof {
                assert(self@.take(b + 1).drop_last() =~= self@.take(b as int));
                assert(self@[b as int] == self.buckets@[b as int]@);
                self.buckets@[b as int].lemma_wf();
            }
            n = n + self.buckets[b].len();
            b += 1;
        }
        proof {
            assert(self@.take(b as int) =~= self@);
        }
        n
    }

    /// Every node of the table, bucket after bucket.
    pub fn entries(&self) -> (known: Vec<RoutingEntry>)
        requires
            self.wf(),
        ensures
            known@ == all_entries(self@),
    {
        let mut known: Vec<RoutingEntry> = Vec::new();
        let mut b: usize = 0;
        while b < self.buckets.len()
            invariant
                self.wf(),
                b <= self.buckets@.len(),
                known@ == all_entries(self@.take(b as int)),
            decreases self.buckets@.len() - b,
        {
            proof {
                assert(self@.take(b + 1).drop_last() =~= self@.take(b as int));
                assert(self@[b as int] == self.buckets@[b as int]@);
            }
            let bucket = &self.buckets[b];
            let ghost before = known@;
            let mut i: usize = 0;
            while i < bucket.len()
                invariant
                    i <= bucket@.len(),
                    known@ == before + bucket@.take(i as int),
                decreases bucket@.len() - i,
            {
                known.push(bucket.get(i));
                proof {
                    assert(bucket@.take(i + 1) =~= bucket@.take(i as int).push(bucket@[i as int]));
                    assert(known@ =~= before + bucket@.take(i + 1));
                }
                i += 1;
            }
            proof {
                assert(bucket@.take(i as int) =~= bucket@);
            }
            b += 1;
        }
        proof {
            assert(self@.take(b as int) =~= self@);
        }
        known
    }

    /// The up to `count` nodes of the table that are closest to `target`,
    /// nearest first.
    pub fn find_closest_nodes(&self, target: &NodeId, count: usize) -> (picked: Vec<
        (NodeId, SocketAddress),
    >)
        requires
            self.wf(),
        ensures
            is_closest_selection(all_entries(self@), target@, count as nat, picked@),
    {
        let known = self.entries();
        closest_nodes(&known, target, count)
    }

    /// Drops every entry not seen within the routing time-to-live and says
    /// how many were dropped.
    pub fn purge(&mut self, now: u64) -> (removed: usize)
        requires
            old(self).wf(),
        ensures
            final(self).wf(),
            final(self).local() == old(self).local(),
            final(self)@ == table_purged(old(self)@, now),
            removed <= BUCKET_COUNT * K_BUCKET_SIZE,
    {
        let mut removed: usize = 0;
        let mut kept: Vec<KBucket> = Vec::new();
        let total = self.buckets.len();
        let mut b: usize = 0;
        while b < total
            invariant
                old(self).wf(),
                self.local_id == old(self).local_id,
                total == BUCKET_COUNT,
                b <= total,
                self.buckets@.len() == total - b,
                kept@.len() == b,
                removed <= b * K_BUCKET_SIZE,
                forall|k: int|
                    0 <= k < self.buckets@.len() ==> #[trigger] self.buckets@[k] == old(
                        self,
                    ).buckets@[k + b],
                forall|k: int|
                    0 <= k < b ==> (#[trigger] kept@[k]).wf() && kept@[k].spec_capacity()
                        == K_BUCKET_SIZE && kept@[k]@ == fresh_entries(old(self)@[k], now),
            decreases total - b,
        {
            let mut bucket = self.buckets.remove(0);
            proof {
                assert(bucket == old(self).buckets@[b as int]);
                assert(old(self)@[b as int] == bucket@);
                bucket.lemma_wf();
            }
            let dropped = bucket.purge(now);
            removed = removed + dropped;
            kept.push(bucket);
            b += 1;
        }
        self.buckets = kept;
        proof {
            let expected = table_purged(old(self)@, now);
            assert(self@ =~= expected);
            assert forall|c: int| 0 <= c < self@.len() implies (#[trigger] self@[c]).len()
                <= K_BUCKET_SIZE && distinct_ids(self@[c]) by {
                self.buckets@[c].lemma_wf();
            }
            assert forall|c: int, i: int|
                0 <= c < self@.len() && 0 <= i < self@[c].len() implies spec_bucket_index(
                self.local_id@,
                (#[trigger] self@[c][i]).node_id@,
            ) == c by {
                lemma_fresh_entries_distinct(old(self)@[c], now);
                let e = self@[c][i];
                assert(old(self)@[c].contains(e));
                let k = choose|k: int| 0 <= k < old(self)@[c].len() && old(self)@[c][k] == e;
                old(self).lemma_wf();
                assert(spec_bucket_index(old(self).local_id@, old(self)@[c][k].node_id@) == c);
            }
        }
        removed
    }

    /// The address of the first entry of every bucket that has one.
    pub fn first_contacts(&self) -> (contacts: Vec<SocketAddress>)
        requires
            self.wf(),
        ensures
            contacts@ == first_contacts_of(self@),
    {
        let mut contacts: Vec<SocketAddress> = Vec::new();
        let mut b: usize = 0;
        while b < self.buckets.len()
            invariant
                self.wf(),
                b <= self.buckets@.len(),
                contacts@ == first_contacts_of(self@.take(b as int)),
            decreases self.buckets@.len() - b,
        {
            proof {
                assert(self@.take(b + 1).drop_last() =~= self@.take(b as int));
                assert(self@[b as int] == self.buckets@[b as int]@);
            }
            if self.buckets[b].len() > 0 {
                contacts.push(self.buckets[b].get(0).addr);
            }
            b += 1;
        }
        proof {
            assert(self@.take(b as int) =~= self@);
        }
        contacts
    }
}

} // verus!
