//! mDNS discovery on a fixed service type: the name that a node
//! announces itself under, and the address that a resolved peer is
//! reached at.

use vstd::prelude::*;
use vstd::string::{StringExecFns, StringSliceAdditionalSpecFns};
use vstd::utf8::encode_utf8;
use crate::digest::{hex_prefix, hex_string, sha256, sha256_digest};
use crate::net::{IpAddress, SocketAddress};
use crate::seq_util::{contains_bytes, first_matching, lemma_first_matching, occurs_in};

verus! {

/// The most bytes that an instance name may have.
pub const MAX_INSTANCE_NAME_LEN: usize = 15;

/// Bytes of the hash of a long node identifier that make up its name.
pub const NAME_HASH_BYTES: usize = 2;

/// The service type that nodes announce and browse.
pub fn service_type() -> (name: &'static str)
    ensures
        name@ == "_pswp._udp.local."@,
{
    "_pswp._udp.local."
}

/// The host name that nodes announce.
pub fn host_name() -> (name: &'static str)
    ensures
        name@ == "ponswarp.local."@,
{
    "ponswarp.local."
}

/// The instance name of a node: its identifier where that has at most 15
/// bytes, else `pswp-` and the hex text of the first two bytes of the
/// identifier's SHA-256 hash.
pub open spec fn instance_name_of(node_id: Seq<char>) -> Seq<char> {
    if encode_utf8(node_id).len() <= MAX_INSTANCE_NAME_LEN {
        node_id
    } else {
        "pswp-"@ + hex_string(sha256(encode_utf8(node_id)).take(NAME_HASH_BYTES as int))
    }
}

/// Executable form of [`instance_name_of`].
pub fn instance_name(node_id: &str) -> (name: String)
    ensures
        name@ == instance_name_of(node_id@),
{
    let bytes = node_id.as_bytes();
    if bytes.len() <= MAX_INSTANCE_NAME_LEN {
        node_id.to_owned()
    } else {
        let hash = sha256_digest(bytes);
        let mut name = "pswp-".to_owned();
        let short = hex_prefix(hash.as_slice(), NAME_HASH_BYTES);
        name.append(short.as_str());
        name
    }
}

/// How well an address serves to reach a peer: a private IPv4 address
/// best (100), then a public IPv4 address (50), then an IPv6 address
/// (25); a loopback address not at all (0).
pub open spec fn address_score(ip: IpAddress) -> u8 {
    if ip.spec_is_loopback() {
        0
    } else if ip.spec_is_v4() {
        if ip.spec_is_private() {
            100
        } else {
            50
        }
    } else {
        25
    }
}

/// Executable form of [`address_score`].
pub fn score_address(ip: &IpAddress) -> (score: u8)
    ensures
        score == address_score(*ip),
{
    if ip.is_loopback() {
        0
    } else if ip.is_v4() {
        if ip.is_private() {
            100
        } else {
            50
        }
    } else {
        25
    }
}

/// Whether `best` is the address of `addrs` to reach a peer at: it is
/// one of them, none scores higher, and none before it scores as high.
pub open spec fn is_best_address(addrs: Seq<IpAddress>, best: IpAddress) -> bool {
    exists|at: int|
        0 <= at < addrs.len() && #[trigger] addrs[at] == best && (forall|k: int|
            0 <= k < addrs.len() ==> address_score(#[trigger] addrs[k]) <= address_score(best))
            && (forall|k: int|
            0 <= k < at ==> address_score(#[trigger] addrs[k]) < address_score(best))
}

/// The address to reach a resolved peer at, with its port; nothing where
/// the peer has no address.
#[verifier::loop_isolation(false)]
pub fn select_best_address(addrs: &Vec<IpAddress>, port: u16) -> (chosen: Option<SocketAddress>)
    ensures
        chosen.is_none() <==> addrs@.len() == 0,
        chosen.is_some() ==> chosen.unwrap().port == port && is_best_address(
            addrs@,
            chosen.unwrap().ip,
        ),
{
    if addrs.len() == 0 {
        return None;
    }
    let mut best: usize = 0;
    let mut best_score = score_address(&addrs[0]);
    let mut i: usize = 1;
    while i < addrs.len()
        invariant
            1 <= i <= addrs@.len(),
            best < i,
            best_score == address_score(addrs@[best as int]),
            forall|k: int| 0 <= k < i ==> address_score(#[trigger] addrs@[k]) <= best_score,
            forall|k: int| 0 <= k < best ==> address_score(#[trigger] addrs@[k]) < best_score,
        decreases addrs@.len() - i,
    {
        let score = score_address(&addrs[i]);
        if score > best_score {
            best = i;
            best_score = score;
        }
        i += 1;
    }
    let ip = addrs[best];
    proof {
        assert(addrs@[best as int] == ip);
    }
    Some(SocketAddress { ip, port })
}

/// Whether a resolved service is this node's own: its full name holds
/// the node's identifier.
pub fn is_own_service(full_name: &str, node_id: &str) -> (own: bool)
    ensures
        own == occurs_in(encode_utf8(full_name@), encode_utf8(node_id@)),
{
    contains_bytes(full_name.as_bytes(), node_id.as_bytes())
}

/// What a peer can do.
#[derive(Clone, Copy, Debug, PartialEq, Eq, Structural)]
pub struct PeerCapabilities {
    pub max_bandwidth_mbps: u64,
    pub available_bandwidth_mbps: u64,
    pub cpu_cores: u32,
    pub can_relay: bool,
}

/// A peer found on the local network.
#[derive(Clone, Debug)]
pub struct PeerNode {
    pub id: String,
    pub address: SocketAddress,
    pub capabilities: PeerCapabilities,
    pub last_seen: u64,
}

/// A [`PeerNode`] as a mathematical value.
pub struct PeerNodeView {
    pub id: Seq<char>,
    pub address: SocketAddress,
    pub capabilities: PeerCapabilities,
    pub last_seen: u64,
}

impl View for PeerNode {
    type V = PeerNodeView;

    open spec fn view(&self) -> PeerNodeView {
        PeerNodeView {
            id: self.id@,
            address: self.address,
            capabilities: self.capabilities,
            last_seen: self.last_seen,
        }
    }
}

/// The capabilities assumed of a peer found on the local network.
pub fn assumed_capabilities(cpu_cores: u32) -> (capabilities: PeerCapabilities)
    ensures
        capabilities == (PeerCapabilities {
            max_bandwidth_mbps: 10000,
            available_bandwidth_mbps: 8000,
            cpu_cores,
            can_relay: true,
        }),
{
    PeerCapabilities {
        max_bandwidth_mbps: 10000,
        available_bandwidth_mbps: 8000,
        cpu_cores,
        can_relay: true,
    }
}

/// The peers found on the local network, and this node's own name.
#[derive(Debug)]
pub struct DiscoveryService {
    node_id: String,
    port: u16,
    peers: Vec<PeerNode>,
}

/// The peers as mathematical values.
pub open spec fn node_views(peers: Seq<PeerNode>) -> Seq<PeerNodeView> {
    Seq::new(peers.len(), |i: int| peers[i]@)
}

/// The position of the peer named `id`, or -1.
pub open spec fn node_position(peers: Seq<PeerNodeView>, id: Seq<char>) -> int {
    first_matching(peers, |p: PeerNodeView| p.id == id)
}

impl DiscoveryService {
    /// The peers found, in the order they were found.
    pub closed spec fn peers(&self) -> Seq<PeerNodeView> {
        node_views(self.peers@)
    }

    /// The identifier of this node.
    pub closed spec fn own_id(&self) -> Seq<char> {
        self.node_id@
    }

    /// The port that this node announces.
    pub closed spec fn own_port(&self) -> u16 {
        self.port
    }

    /// The discovery of the node `node_id` that serves on `port`.
    pub fn new(node_id: String, port: u16) -> (service: Self)
        ensures
            service.own_id() == node_id@,
            service.own_port() == port,
            service.peers().len() == 0,
    {
        DiscoveryService { node_id, port, peers: Vec::new() }
    }

    /// The instance name that this node announces.
    pub fn announced_name(&self) -> (name: String)
        ensures
            name@ == instance_name_of(self.own_id()),
    {
        instance_name(self.node_id.as_str())
    }

    #[verifier::loop_isolation(false)]
    fn find(&self, id: &String) -> (at: usize)
        ensures
            at <= self.peers().len(),
            at < self.peers().len() ==> node_position(self.peers(), id@) == at && self.peers()[at as int].id
                == id@,
            at == self.peers().len() ==> node_position(self.peers(), id@) == -1,
    {
        proof {
            lemma_first_matching(self.peers(), |p: PeerNodeView| p.id == id@);
        }
        let mut i: usize = 0;
        while i < self.peers.len()
            invariant
                i <= self.peers@.len(),
                forall|k: int| 0 <= k < i ==> (#[trigger] self.peers()[k]).id != id@,
            decreases self.peers@.len() - i,
        {
            if self.peers[i].id == *id {
                assert(self.peers()[i as int].id == id@);
                return i;
            }
            i += 1;
        }
        i
    }

    /// Takes in a resolved service at time `now`: this node's own service
    /// and a service without address are passed over; any other peer is
    /// taken with its best address, in the place of what was known of it
    /// or behind the last peer.
    pub fn service_resolved(
        &mut self,
        full_name: String,
        addrs: &Vec<IpAddress>,
        port: u16,
        cpu_cores: u32,
        now: u64,
    ) -> (taken: bool)
        ensures
            final(self).own_id() == old(self).own_id(),
            final(self).own_port() == old(self).own_port(),
            taken == (!occurs_in(encode_utf8(full_name@), encode_utf8(old(self).own_id()))
                && addrs@.len() > 0),
            !taken ==> final(self).peers() == old(self).peers(),
            taken ==> exists|ip: IpAddress|
                #![trigger is_best_address(addrs@, ip)]
                is_best_address(addrs@, ip) && final(self).peers() == {
                    let entry = PeerNodeView {
                        id: full_name@,
                        address: SocketAddress { ip, port },
                        capabilities: PeerCapabilities {
                            max_bandwidth_mbps: 10000,
                            available_bandwidth_mbps: 8000,
                            cpu_cores,
                            can_relay: true,
                        },
                        last_seen: now,
                    };
                    if node_position(old(self).peers(), full_name@) >= 0 {
                        old(self).peers().update(node_position(old(self).peers(), full_name@), entry)
                    } else {
                        old(self).peers().push(entry)
                    }
                },
    {
        if is_own_service(full_name.as_str(), self.node_id.as_str()) {
            return false;
        }
        match select_best_address(addrs, port) {
            None => false,
            Some(address) => {
                let at = self.find(&full_name);
                let ghost before = self.peers();
                let node = PeerNode {
                    id: full_name,
                    address,
                    capabilities: assumed_capabilities(cpu_cores),
                    last_seen: now,
                };
                if at < self.peers.len() {
                    self.peers.set(at, node);
                    proof {
                        assert(self.peers() =~= before.update(at as int, node@));
                    }
                } else {
                    self.peers.push(node);
                    proof {
                        assert(self.peers() =~= before.push(node@));
                    }
                }
                proof {
                    assert(is_best_address(addrs@, address.ip));
                }
                true
            },
        }
    }

    /// Takes in that the service `name` is gone: the peer of that name is
    /// forgotten.
    pub fn service_removed(&mut self, name: &str)
        ensures
            final(self).own_id() == old(self).own_id(),
            final(self).own_port() == old(self).own_port(),
            final(self).peers() == if node_position(old(self).peers(), name@) >= 0 {
                old(self).peers().remove(node_position(old(self).peers(), name@))
            } else {
                old(self).peers()
            },
    {
        let id = name.to_owned();
        let at = self.find(&id);
        let ghost before = self.peers();
        if at < self.peers.len() {
            let _ = self.peers.remove(at);
            proof {
                assert(self.peers() =~= before.remove(at as int));
            }
        }
    }

    /// The peers found.
    pub fn get_peers(&self) -> (peers: Vec<PeerNode>)
        ensures
            node_views(peers@) == self.peers(),
    {
        let mut peers: Vec<PeerNode> = Vec::new();
        let mut i: usize = 0;
        while i < self.peers.len()
            invariant
                i <= self.peers@.len(),
                node_views(peers@) == self.peers().take(i as int),
            decreases self.peers@.len() - i,
        {
            let p = &self.peers[i];
            let copy = PeerNode {
                id: p.id.clone(),
                address: p.address,
                capabilities: p.capabilities,
                last_seen: p.last_seen,
            };
            let ghost before = node_views(peers@);
            peers.push(copy);
            proof {
                assert(copy@ == self.peers()[i as int]);
                assert(node_views(peers@) =~= before.push(copy@));
                assert(node_views(peers@) =~= self.peers().take(i + 1));
            }
            i += 1;
        }
        proof {
            assert(self.peers().take(i as int) =~= self.peers());
        }
        peers
    }

    /// The number of peers found.
    pub fn get_peer_count(&self) -> (n: usize)
        ensures
            n == self.peers().len(),
    {
        self.peers.len()
    }
}

} // verus!
