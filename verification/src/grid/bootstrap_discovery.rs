//! Bootstrap nodes found on the local network.

use vstd::prelude::*;
use crate::discovery::mdns::{is_best_address, select_best_address};
use crate::net::{IpAddress, SocketAddress};
use crate::seq_util::{first_matching, lemma_first_matching};

verus! {

/// A bootstrap node that announced itself.
#[derive(Clone, Debug)]
pub struct BootstrapNode {
    pub id: String,
    pub address: SocketAddress,
    pub discovered_at: u64,
    pub last_seen: u64,
}

/// A [`BootstrapNode`] as a mathematical value.
pub struct BootstrapNodeView {
    pub id: Seq<char>,
    pub address: SocketAddress,
    pub discovered_at: u64,
    pub last_seen: u64,
}

impl View for BootstrapNode {
    type V = BootstrapNodeView;

    open spec fn view(&self) -> BootstrapNodeView {
        BootstrapNodeView {
            id: self.id@,
            address: self.address,
            discovered_at: self.discovered_at,
            last_seen: self.last_seen,
        }
    }
}

/// What the discovery reports.
#[derive(Debug)]
pub enum BootstrapDiscoveryEvent {
    /// A node that was not known announced itself.
    NodeDiscovered(BootstrapNode),
    /// A known node withdrew.
    NodeLost(String),
}

/// The bootstrap nodes known at the moment.
#[derive(Debug)]
pub struct BootstrapDiscovery {
    nodes: Vec<BootstrapNode>,
}

/// The nodes as mathematical values.
pub open spec fn bootstrap_views(nodes: Seq<BootstrapNode>) -> Seq<BootstrapNodeView> {
    Seq::new(nodes.len(), |i: int| nodes[i]@)
}

/// The position of the node named `id`, or -1.
pub open spec fn bootstrap_position(nodes: Seq<BootstrapNodeView>, id: Seq<char>) -> int {
    first_matching(nodes, |n: BootstrapNodeView| n.id == id)
}

impl View for BootstrapDiscovery {
    type V = Seq<BootstrapNodeView>;

    closed spec fn view(&self) -> Seq<BootstrapNodeView> {
        bootstrap_views(self.nodes@)
    }
}

impl BootstrapDiscovery {
    /// No node is known.
    pub fn new() -> (discovery: Self)
        ensures
            discovery@.len() == 0,
    {
        BootstrapDiscovery { nodes: Vec::new() }
    }

    #[verifier::loop_isolation(false)]
    fn find(&self, id: &String) -> (at: usize)
        ensures
            at <= self@.len(),
            at < self@.len() ==> bootstrap_position(self@, id@) == at,
            at == self@.len() ==> bootstrap_position(self@, id@) == -1,
    {
        proof {
            lemma_first_matching(self@, |n: BootstrapNodeView| n.id == id@);
        }
        let mut i: usize = 0;
        while i < self.nodes.len()
            invariant
                i <= self.nodes@.len(),
                forall|k: int| 0 <= k < i ==> (#[trigger] self@[k]).id != id@,
            decreases self.nodes@.len() - i,
        {
            if self.nodes[i].id == *id {
                assert(self@[i as int].id == id@);
                return i;
            }
            i += 1;
        }
        i
    }

    /// Takes in a resolved service at time `now`. A service without
    /// address is passed over; any other is known from now on at its best
    /// address, and reported if it was not known before.
    pub fn service_resolved(
        &mut self,
        full_name: String,
        addrs: &Vec<IpAddress>,
        port: u16,
        now: u64,
    ) -> (event: Option<BootstrapDiscoveryEvent>)
        ensures
            addrs@.len() == 0 ==> final(self)@ == old(self)@ && event.is_none(),
            addrs@.len() > 0 ==> exists|ip: IpAddress|
                #![trigger is_best_address(addrs@, ip)]
                {
                    let node = BootstrapNodeView {
                        id: full_name@,
                        address: SocketAddress { ip, port },
                        discovered_at: now,
                        last_seen: now,
                    };
                    let at = bootstrap_position(old(self)@, full_name@);
                    &&& is_best_address(addrs@, ip)
                    &&& final(self)@ == if at >= 0 {
                        old(self)@.update(at, node)
                    } else {
                        old(self)@.push(node)
                    }
                    &&& (at >= 0 ==> event.is_none())
                    &&& (at < 0 ==> (event matches Some(
                        BootstrapDiscoveryEvent::NodeDiscovered(n),
                    ) && n@ == node))
                },
    {
        match select_best_address(addrs, port) {
            None => None,
            Some(address) => {
                let at = self.find(&full_name);
                let ghost before = self@;
                let node = BootstrapNode {
                    id: full_name.clone(),
                    address,
                    discovered_at: now,
                    last_seen: now,
                };
                proof {
                    assert(is_best_address(addrs@, address.ip));
                }
                if at < self.nodes.len() {
                    self.nodes.set(at, node);
                    proof {
                        assert(self@ =~= before.update(at as int, node@));
                    }
                    None
                } else {
                    self.nodes.push(node);
                    proof {
                        assert(self@ =~= before.push(node@));
                    }
                    Some(
                        BootstrapDiscoveryEvent::NodeDiscovered(
                            BootstrapNode {
                                id: full_name,
                                address,
                                discovered_at: now,
                                last_seen: now,
                            },
                        ),
                    )
                }
            },
        }
    }

    /// Takes in that the service `name` is gone: a known node of that
    /// name is forgotten and reported lost.
    pub fn service_removed(&mut self, name: String) -> (event: Option<BootstrapDiscoveryEvent>)
        ensures
            bootstrap_position(old(self)@, name@) >= 0 ==> final(self)@ == old(self)@.remove(
                bootstrap_position(old(self)@, name@),
            ) && (event matches Some(BootstrapDiscoveryEvent::NodeLost(lost)) && lost@ == name@),
            bootstrap_position(old(self)@, name@) < 0 ==> final(self)@ == old(self)@
                && event.is_none(),
    {
        let at = self.find(&name);
        let ghost before = self@;
        if at < self.nodes.len() {
            let _ = self.nodes.remove(at);
            proof {
                assert(self@ =~= before.remove(at as int));
            }
            Some(BootstrapDiscoveryEvent::NodeLost(name))
        } else {
            None
        }
    }

    /// The addresses of the known nodes, in the order they were found.
    pub fn get_addresses(&self) -> (addresses: Vec<SocketAddress>)
        ensures
            addresses@.len() == self@.len(),
            forall|k: int| 0 <= k < addresses@.len() ==> #[trigger] addresses@[k] == self@[k].address,
    {
        let mut addresses: Vec<SocketAddress> = Vec::new();
        let mut i: usize = 0;
        while i < self.nodes.len()
            invariant
                i <= self.nodes@.len(),
                addresses@.len() == i,
                forall|k: int| 0 <= k < i ==> #[trigger] addresses@[k] == self@[k].address,
            decreases self.nodes@.len() - i,
        {
            addresses.push(self.nodes[i].address);
            i += 1;
        }
        addresses
    }

    /// The number of known nodes.
    pub fn node_count(&self) -> (n: usize)
        ensures
            n == self@.len(),
    {
        self.nodes.len()
    }
}

} // verus!
