//! The Kademlia node: what it answers to each message, what it remembers,
//! and what it sends for each command. The socket stays outside: the node
//! is handed each datagram's message and hands back what to send.

use vstd::prelude::*;
use vstd::string::StringExecFns;
use crate::bootstrap::stats::{bump, bumped, StatsCollector};
use crate::digest::{hex_prefix, hex_string, random_bytes32};
use crate::grid::dht::{same_id, InfoHash, NodeId};
use crate::grid::providers::{
    contacts_of,
    fresh_providers,
    providers_of,
    store_after_announce,
    store_purged,
    ProviderInfo,
    ProviderStore,
};
use crate::grid::routing::{
    all_entries,
    first_contacts_of,
    is_closest_selection,
    table_add_result,
    table_purged,
    BucketInsert,
    RoutingEntry,
    RoutingTable,
};
use crate::net::SocketAddress;

verus! {

/// Nodes asked in one lookup, and nodes named in one answer.
pub const LOOKUP_WIDTH: usize = 8;

/// Bytes of a node identifier that a discovery event shows, as hex text.
pub const NODE_ID_PREFIX: usize = 8;

/// One DHT datagram.
#[derive(Debug)]
pub enum DhtMessage {
    Ping { sender_id: NodeId },
    Pong { sender_id: NodeId },
    FindNode { sender_id: NodeId, target: NodeId },
    FindNodeResponse { sender_id: NodeId, nodes: Vec<(NodeId, SocketAddress)> },
    GetProviders { sender_id: NodeId, info_hash: InfoHash },
    GetProvidersResponse {
        sender_id: NodeId,
        info_hash: InfoHash,
        providers: Vec<(NodeId, SocketAddress)>,
        nodes: Vec<(NodeId, SocketAddress)>,
    },
    Announce { sender_id: NodeId, info_hash: InfoHash, port: u16 },
    AnnounceResponse { sender_id: NodeId, success: bool },
}

/// A DHT datagram as a mathematical value.
#[verifier::ext_equal]
pub enum DhtMessageView {
    Ping { sender_id: NodeId },
    Pong { sender_id: NodeId },
    FindNode { sender_id: NodeId, target: NodeId },
    FindNodeResponse { sender_id: NodeId, nodes: Seq<(NodeId, SocketAddress)> },
    GetProviders { sender_id: NodeId, info_hash: InfoHash },
    GetProvidersResponse {
        sender_id: NodeId,
        info_hash: InfoHash,
        providers: Seq<(NodeId, SocketAddress)>,
        nodes: Seq<(NodeId, SocketAddress)>,
    },
    Announce { sender_id: NodeId, info_hash: InfoHash, port: u16 },
    AnnounceResponse { sender_id: NodeId, success: bool },
}

impl View for DhtMessage {
    type V = DhtMessageView;

    open spec fn view(&self) -> DhtMessageView {
        match *self {
            DhtMessage::Ping { sender_id } => DhtMessageView::Ping { sender_id },
            DhtMessage::Pong { sender_id } => DhtMessageView::Pong { sender_id },
            DhtMessage::FindNode { sender_id, target } => DhtMessageView::FindNode {
                sender_id,
                target,
            },
            DhtMessage::FindNodeResponse { sender_id, nodes } => DhtMessageView::FindNodeResponse {
                sender_id,
                nodes: nodes@,
            },
            DhtMessage::GetProviders { sender_id, info_hash } => DhtMessageView::GetProviders {
                sender_id,
                info_hash,
            },
            DhtMessage::GetProvidersResponse {
                sender_id,
                info_hash,
                providers,
                nodes,
            } => DhtMessageView::GetProvidersResponse {
                sender_id,
                info_hash,
                providers: providers@,
                nodes: nodes@,
            },
            DhtMessage::Announce { sender_id, info_hash, port } => DhtMessageView::Announce {
                sender_id,
                info_hash,
                port,
            },
            DhtMessage::AnnounceResponse { sender_id, success } => DhtMessageView::AnnounceResponse {
                sender_id,
                success,
            },
        }
    }
}

impl DhtMessageView {
    /// The node that sent the message.
    pub open spec fn sender(self) -> NodeId {
        match self {
            DhtMessageView::Ping { sender_id } => sender_id,
            DhtMessageView::Pong { sender_id } => sender_id,
            DhtMessageView::FindNode { sender_id, .. } => sender_id,
            DhtMessageView::FindNodeResponse { sender_id, .. } => sender_id,
            DhtMessageView::GetProviders { sender_id, .. } => sender_id,
            DhtMessageView::GetProvidersResponse { sender_id, .. } => sender_id,
            DhtMessageView::Announce { sender_id, .. } => sender_id,
            DhtMessageView::AnnounceResponse { sender_id, .. } => sender_id,
        }
    }

    /// The nodes that the message recommends, if it is an answer that
    /// recommends any.
    pub open spec fn recommended(self) -> Seq<(NodeId, SocketAddress)> {
        match self {
            DhtMessageView::FindNodeResponse { nodes, .. } => nodes,
            DhtMessageView::GetProvidersResponse { nodes, .. } => nodes,
            _ => Seq::empty(),
        }
    }
}

/// What the owner of a node asks of it.
#[derive(Clone, Copy, Debug)]
pub enum DhtCommand {
    /// Tell the network that this node holds the file.
    StartProviding { info_hash: InfoHash },
    /// Stop answering for the file.
    StopProviding { info_hash: InfoHash },
    /// Look for nodes that hold the file.
    FindProviders { info_hash: InfoHash },
    /// Enter the overlay through the node at `addr`.
    AddBootstrapNode { addr: SocketAddress },
    /// Take a node into the routing table by hand.
    AddPeer { node_id: NodeId, addr: SocketAddress },
    /// Ping one node of every bucket.
    Refresh,
    /// Purge what is past its time-to-live.
    Cleanup,
    /// Stop the node.
    Shutdown,
}

/// What the node asks of its owner: a datagram to send, or news to pass on.
#[derive(Debug)]
pub enum DhtAction {
    /// Send `message` to `to`.
    Send { to: SocketAddress, message: DhtMessage },
    /// A node that was not in the routing table is in it now.
    PeerDiscovered { node_id: NodeId, addr: SocketAddress },
    /// A node was named as holder of a file.
    PeerFound { info_hash: InfoHash, peer_id: NodeId, addr: SocketAddress },
    /// The holders of a file, as one answer named them.
    ProvidersFound { info_hash: InfoHash, providers: Vec<(NodeId, SocketAddress)> },
    /// The node is to stop.
    Stop,
}

/// A [`DhtAction`] as a mathematical value.
#[verifier::ext_equal]
pub enum DhtActionView {
    Send { to: SocketAddress, message: DhtMessageView },
    PeerDiscovered { node_id: NodeId, addr: SocketAddress },
    PeerFound { info_hash: InfoHash, peer_id: NodeId, addr: SocketAddress },
    ProvidersFound { info_hash: InfoHash, providers: Seq<(NodeId, SocketAddress)> },
    Stop,
}

impl View for DhtAction {
    type V = DhtActionView;

    open spec fn view(&self) -> DhtActionView {
        match *self {
            DhtAction::Send { to, message } => DhtActionView::Send { to, message: message@ },
            DhtAction::PeerDiscovered { node_id, addr } => DhtActionView::PeerDiscovered {
                node_id,
                addr,
            },
            DhtAction::PeerFound { info_hash, peer_id, addr } => DhtActionView::PeerFound {
                info_hash,
                peer_id,
                addr,
            },
            DhtAction::ProvidersFound { info_hash, providers } => DhtActionView::ProvidersFound {
                info_hash,
                providers: providers@,
            },
            DhtAction::Stop => DhtActionView::Stop,
        }
    }
}

/// The actions as mathematical values, in order.
pub open spec fn action_views(actions: Seq<DhtAction>) -> Seq<DhtActionView> {
    Seq::new(actions.len(), |i: int| actions[i]@)
}

/// News of a node found through the DHT, for the surrounding application.
#[derive(Debug)]
pub struct PeerDiscoveredEvent {
    /// Hex text of the first eight bytes of the node's identifier.
    pub node_id: String,
    pub address: SocketAddress,
    pub source: String,
}

impl PeerDiscoveredEvent {
    /// The event for a node that entered the routing table.
    pub fn from_dht(node_id: &NodeId, address: SocketAddress) -> (event: Self)
        ensures
            event.node_id@ == hex_string(node_id@.take(NODE_ID_PREFIX as int)),
            event.address == address,
            event.source@ == "dht"@,
    {
        PeerDiscoveredEvent {
            node_id: hex_prefix(node_id.as_slice(), NODE_ID_PREFIX),
            address,
            source: "dht".to_string(),
        }
    }
}

/// The routing entry of a node heard from at `addr` at time `now`.
pub open spec fn heard(node_id: NodeId, addr: SocketAddress, now: u64) -> RoutingEntry {
    RoutingEntry { node_id, addr, last_seen: now }
}

/// The news that an insertion makes: one discovery where the node is new.
pub open spec fn discovery_of(outcome: BucketInsert, node_id: NodeId, addr: SocketAddress) -> Seq<
    DhtActionView,
> {
    if outcome.spec_is_new() {
        seq![DhtActionView::PeerDiscovered { node_id, addr }]
    } else {
        Seq::empty()
    }
}

/// The routing table after each of `nodes` was offered to it in turn.
pub open spec fn table_after_nodes(
    table: Seq<Seq<RoutingEntry>>,
    local: Seq<u8>,
    nodes: Seq<(NodeId, SocketAddress)>,
    now: u64,
) -> Seq<Seq<RoutingEntry>>
    decreases nodes.len(),
{
    if nodes.len() == 0 {
        table
    } else {
        table_add_result(
            table_after_nodes(table, local, nodes.drop_last(), now),
            local,
            heard(nodes.last().0, nodes.last().1, now),
            now,
        ).0
    }
}

/// The discoveries made while each of `nodes` was offered in turn.
pub open spec fn discoveries_of_nodes(
    table: Seq<Seq<RoutingEntry>>,
    local: Seq<u8>,
    nodes: Seq<(NodeId, SocketAddress)>,
    now: u64,
) -> Seq<DhtActionView>
    decreases nodes.len(),
{
    if nodes.len() == 0 {
        Seq::empty()
    } else {
        discoveries_of_nodes(table, local, nodes.drop_last(), now) + discovery_of(
            table_add_result(
                table_after_nodes(table, local, nodes.drop_last(), now),
                local,
                heard(nodes.last().0, nodes.last().1, now),
                now,
            ).1,
            nodes.last().0,
            nodes.last().1,
        )
    }
}

/// One `PeerFound` per provider, in order.
pub open spec fn peers_found(info_hash: InfoHash, providers: Seq<(NodeId, SocketAddress)>) -> Seq<
    DhtActionView,
> {
    Seq::new(
        providers.len(),
        |k: int|
            DhtActionView::PeerFound { info_hash, peer_id: providers[k].0, addr: providers[k].1 },
    )
}

/// One datagram with the same message to each contact, in order.
pub open spec fn sends_to(contacts: Seq<SocketAddress>, message: DhtMessageView) -> Seq<
    DhtActionView,
> {
    Seq::new(contacts.len(), |k: int| DhtActionView::Send { to: contacts[k], message })
}

/// The addresses of a list of contacts.
pub open spec fn addresses_of(contacts: Seq<(NodeId, SocketAddress)>) -> Seq<SocketAddress> {
    Seq::new(contacts.len(), |k: int| contacts[k].1)
}

/// Whether `hash` is among `files`.
pub open spec fn lists_file(files: Seq<InfoHash>, hash: Seq<u8>) -> bool {
    exists|k: int| 0 <= k < files.len() && (#[trigger] files[k])@ == hash
}

/// The files without `hash`, in their order.
pub open spec fn files_without(files: Seq<InfoHash>, hash: Seq<u8>) -> Seq<InfoHash> {
    files.filter(|f: InfoHash| f@ != hash)
}

/// The node: its identity, what it knows of other nodes, and which files
/// are held where.
#[derive(Debug)]
pub struct DhtNode {
    node_id: NodeId,
    local_port: u16,
    routing: RoutingTable,
    providers: ProviderStore,
    providing: Vec<InfoHash>,
}

/// What a node is, as the contracts speak of it.
pub struct DhtNodeView {
    pub node_id: NodeId,
    pub local_port: u16,
    pub table: Seq<Seq<RoutingEntry>>,
    pub store: Seq<(Seq<u8>, Seq<ProviderInfo>)>,
    pub providing: Seq<InfoHash>,
}

impl View for DhtNode {
    type V = DhtNodeView;

    closed spec fn view(&self) -> DhtNodeView {
        DhtNodeView {
            node_id: self.node_id,
            local_port: self.local_port,
            table: self.routing@,
            store: self.providers@,
            providing: self.providing@,
        }
    }
}

/// The answer to a provider lookup for `info_hash` from `from`: this node,
/// at the asker's view of its address, where it holds the file itself,
/// then the providers on record that are younger than the time-to-live.
pub open spec fn providers_answer(
    node: DhtNodeView,
    info_hash: InfoHash,
    from: SocketAddress,
    now: u64,
) -> Seq<(NodeId, SocketAddress)> {
    let own = if lists_file(node.providing, info_hash@) {
        seq![(node.node_id, SocketAddress { ip: from.ip, port: node.local_port })]
    } else {
        Seq::empty()
    };
    own + contacts_of(fresh_providers(providers_of(node.store, info_hash@), now))
}

/// What handling `message` from `from` at time `now` does to a node and
/// what it makes the node ask of its owner.
///
/// The sender is offered to the routing table first, then the nodes that
/// an answer recommends; each node that is new to the table is reported.
/// A ping is answered with a pong; a node lookup with the up to eight
/// known nodes closest to the target; a provider lookup with the
/// providers on record and the up to eight nodes closest to the file; an
/// announcement is recorded and acknowledged; an answer that names
/// providers is passed on, provider by provider and then as a whole.
pub open spec fn handled(
    pre: DhtNodeView,
    message: DhtMessageView,
    from: SocketAddress,
    now: u64,
    post: DhtNodeView,
    actions: Seq<DhtActionView>,
) -> bool {
    let sender = message.sender();
    let first = table_add_result(pre.table, pre.node_id@, heard(sender, from, now), now);
    let news = discovery_of(first.1, sender, from) + discoveries_of_nodes(
        first.0,
        pre.node_id@,
        message.recommended(),
        now,
    );
    &&& post.node_id == pre.node_id
    &&& post.local_port == pre.local_port
    &&& post.providing == pre.providing
    &&& post.table == table_after_nodes(first.0, pre.node_id@, message.recommended(), now)
    &&& post.store == match message {
        DhtMessageView::Announce { sender_id, info_hash, port } => store_after_announce(
            pre.store,
            info_hash@,
            sender_id,
            SocketAddress { ip: from.ip, port },
            now,
        ),
        _ => pre.store,
    }
    &&& match message {
        DhtMessageView::Ping { .. } => actions == news.push(
            DhtActionView::Send {
                to: from,
                message: DhtMessageView::Pong { sender_id: pre.node_id },
            },
        ),
        DhtMessageView::Pong { .. } => actions == news,
        DhtMessageView::FindNode { target, .. } => actions.len() == news.len() + 1
            && actions.drop_last() == news && match actions.last() {
            DhtActionView::Send {
                to,
                message: DhtMessageView::FindNodeResponse { sender_id, nodes },
            } => to == from && sender_id == pre.node_id && is_closest_selection(
                all_entries(post.table),
                target@,
                LOOKUP_WIDTH as nat,
                nodes,
            ),
            _ => false,
        },
        DhtMessageView::FindNodeResponse { .. } => actions == news,
        DhtMessageView::GetProviders { info_hash, .. } => actions.len() == news.len() + 1
            && actions.drop_last() == news && match actions.last() {
            DhtActionView::Send {
                to,
                message: DhtMessageView::GetProvidersResponse {
                    sender_id,
                    info_hash: file,
                    providers,
                    nodes,
                },
            } => to == from && sender_id == pre.node_id && file == info_hash && providers
                == providers_answer(pre, info_hash, from, now) && is_closest_selection(
                all_entries(post.table),
                info_hash@,
                LOOKUP_WIDTH as nat,
                nodes,
            ),
            _ => false,
        },
        DhtMessageView::GetProvidersResponse { info_hash, providers, .. } => actions == news + (
        if providers.len() > 0 {
            peers_found(info_hash, providers).push(
                DhtActionView::ProvidersFound { info_hash, providers },
            )
        } else {
            Seq::empty()
        }),
        DhtMessageView::Announce { .. } => actions == news.push(
            DhtActionView::Send {
                to: from,
                message: DhtMessageView::AnnounceResponse {
                    sender_id: pre.node_id,
                    success: true,
                },
            },
        ),
        DhtMessageView::AnnounceResponse { .. } => actions == news,
    }
}

/// What handling a message does to the counters: one more message
/// received, one more provider stored for an announcement, and the number
/// of nodes that the routing table now holds.
pub open spec fn counted(
    pre: StatsCollector,
    message: DhtMessageView,
    post_table: Seq<Seq<RoutingEntry>>,
    post: StatsCollector,
) -> bool {
    post == (StatsCollector {
        dht_messages_received: bump(pre.dht_messages_received),
        nodes_in_routing_table: all_entries(post_table).len() as u64,
        providers_stored: if message is Announce {
            bump(pre.providers_stored)
        } else {
            pre.providers_stored
        },
        ..pre
    })
}

/// Appending an action appends its view.
pub proof fn lemma_action_views_push(actions: Seq<DhtAction>, action: DhtAction)
    ensures
        action_views(actions.push(action)) == action_views(actions).push(action@),
        action_views(Seq::<DhtAction>::empty()) == Seq::<DhtActionView>::empty(),
{
    assert(action_views(actions.push(action)) =~= action_views(actions).push(action@));
    assert(action_views(Seq::<DhtAction>::empty()) =~= Seq::<DhtActionView>::empty());
}

impl DhtNode {
    /// The routing table and the provider store have their shape, and the
    /// table is that of this node.
    pub closed spec fn wf(&self) -> bool {
        &&& self.routing.wf()
        &&& self.routing.local() == self.node_id@
        &&& self.providers.wf()
    }

    /// A node with the identifier `node_id` that listens on `local_port`
    /// and knows nothing yet.
    pub fn new(node_id: NodeId, local_port: u16) -> (node: Self)
        ensures
            node.wf(),
            node@.node_id == node_id,
            node@.local_port == local_port,
            all_entries(node@.table).len() == 0,
            node@.store.len() == 0,
            node@.providing.len() == 0,
    {
        let node = DhtNode {
            node_id,
            local_port,
            routing: RoutingTable::new(node_id),
            providers: ProviderStore::new(),
            providing: Vec::new(),
        };
        proof {
            lemma_empty_table(node.routing@);
        }
        node
    }

    /// A node with an identifier drawn at random.
    pub fn with_random_id(local_port: u16) -> (node: Self)
        ensures
            node.wf(),
            node@.local_port == local_port,
            all_entries(node@.table).len() == 0,
            node@.store.len() == 0,
            node@.providing.len() == 0,
    {
        DhtNode::new(random_bytes32(), local_port)
    }

    /// The instance name that this node announces on the local network:
    /// `pswp-` and the hex text of the first byte of its identifier.
    pub fn mdns_instance_name(&self) -> (name: String)
        ensures
            name@ == "pswp-"@ + hex_string(self@.node_id@.take(1)),
    {
        let mut name = "pswp-".to_owned();
        let short = hex_prefix(self.node_id.as_slice(), 1);
        name.append(short.as_str());
        name
    }

    /// The identifier of this node.
    pub fn node_id(&self) -> (id: NodeId)
        ensures
            id == self@.node_id,
    {
        self.node_id
    }

    /// The number of nodes in the routing table.
    pub fn routing_table_size(&self) -> (n: usize)
        requires
            self.wf(),
        ensures
            n == all_entries(self@.table).len(),
    {
        self.routing.len()
    }

    /// Whether this node holds the file itself.
    #[verifier::loop_isolation(false)]
    pub fn is_providing(&self, info_hash: &InfoHash) -> (held: bool)
        ensures
            held == lists_file(self@.providing, info_hash@),
    {
        let mut i: usize = 0;
        while i < self.providing.len()
            invariant
                i <= self.providing@.len(),
                forall|k: int| 0 <= k < i ==> (#[trigger] self.providing@[k])@ != info_hash@,
            decreases self.providing@.len() - i,
        {
            if same_id(&self.providing[i], info_hash) {
                return true;
            }
            i += 1;
        }
        false
    }

    fn note_node(
        &mut self,
        node_id: NodeId,
        addr: SocketAddress,
        now: u64,
        actions: &mut Vec<DhtAction>,
    )
        requires
            old(self).wf(),
        ensures
            final(self).wf(),
            final(self)@ == (DhtNodeView {
                table: table_add_result(
                    old(self)@.table,
                    old(self)@.node_id@,
                    heard(node_id, addr, now),
                    now,
                ).0,
                ..old(self)@
            }),
            action_views(final(actions)@) == action_views(old(actions)@) + discovery_of(
                table_add_result(
                    old(self)@.table,
                    old(self)@.node_id@,
                    heard(node_id, addr, now),
                    now,
                ).1,
                node_id,
                addr,
            ),
    {
        let outcome = self.routing.add_node(node_id, addr, now);
        if outcome.is_new() {
            proof {
                lemma_action_views_push(actions@, DhtAction::PeerDiscovered { node_id, addr });
            }
            actions.push(DhtAction::PeerDiscovered { node_id, addr });
        }
        proof {
            assert(action_views(actions@) =~= action_views(old(actions)@) + discovery_of(
                outcome,
                node_id,
                addr,
            ));
        }
    }

    #[verifier::loop_isolation(false)]
    fn note_nodes(
        &mut self,
        nodes: &Vec<(NodeId, SocketAddress)>,
        now: u64,
        actions: &mut Vec<DhtAction>,
    )
        requires
            old(self).wf(),
        ensures
            final(self).wf(),
            final(self)@ == (DhtNodeView {
                table: table_after_nodes(old(self)@.table, old(self)@.node_id@, nodes@, now),
                ..old(self)@
            }),
            action_views(final(actions)@) == action_views(old(actions)@) + discoveries_of_nodes(
                old(self)@.table,
                old(self)@.node_id@,
                nodes@,
                now,
            ),
    {
        let mut i: usize = 0;
        proof {
            assert(action_views(actions@) =~= action_views(old(actions)@) + Seq::<
                DhtActionView,
            >::empty());
        }
        while i < nodes.len()
            invariant
                i <= nodes@.len(),
                self.wf(),
                self@ == (DhtNodeView {
                    table: table_after_nodes(
                        old(self)@.table,
                        old(self)@.node_id@,
                        nodes@.take(i as int),
                        now,
                    ),
                    ..old(self)@
                }),
                action_views(actions@) == action_views(old(actions)@) + discoveries_of_nodes(
                    old(self)@.table,
                    old(self)@.node_id@,
                    nodes@.take(i as int),
                    now,
                ),
            decreases nodes@.len() - i,
        {
            let (node_id, addr) = nodes[i];
            proof {
                assert(nodes@.take(i + 1).drop_last() =~= nodes@.take(i as int));
                assert(nodes@.take(i + 1).last() == nodes@[i as int]);
            }
            let ghost before = action_views(actions@);
            self.note_node(node_id, addr, now, actions);
            proof {
                let step = discovery_of(
                    table_add_result(
                        table_after_nodes(
                            old(self)@.table,
                            old(self)@.node_id@,
                            nodes@.take(i as int),
                            now,
                        ),
                        old(self)@.node_id@,
                        heard(node_id, addr, now),
                        now,
                    ).1,
                    node_id,
                    addr,
                );
                assert(action_views(actions@) =~= action_views(old(actions)@) + (
                discoveries_of_nodes(
                    old(self)@.table,
                    old(self)@.node_id@,
                    nodes@.take(i as int),
                    now,
                ) + step));
            }
            i += 1;
        }
        proof {
            assert(nodes@.take(i as int) =~= nodes@);
        }
    }

    /// What this node answers to a provider lookup from `from`.
    fn answer_providers(&self, info_hash: &InfoHash, from: SocketAddress, now: u64) -> (found: Vec<
        (NodeId, SocketAddress),
    >)
        ensures
            found@ == providers_answer(self@, *info_hash, from, now),
    {
        let mut found: Vec<(NodeId, SocketAddress)> = Vec::new();
        if self.is_providing(info_hash) {
            found.push((self.node_id, SocketAddress { ip: from.ip, port: self.local_port }));
        }
        let ghost own = found@;
        let mut stored = self.providers.get_providers(info_hash, now);
        found.append(&mut stored);
        found
    }

    /// Takes in one message that arrived from `from` at time `now`, and
    /// says what to send and what to report.
    pub fn handle_message(
        &mut self,
        message: DhtMessage,
        from: SocketAddress,
        now: u64,
        stats: &mut StatsCollector,
    ) -> (actions: Vec<DhtAction>)
        requires
            old(self).wf(),
        ensures
            final(self).wf(),
            handled(old(self)@, message@, from, now, final(self)@, action_views(actions@)),
            counted(*old(stats), message@, final(self)@.table, *final(stats)),
    {
        let mut actions: Vec<DhtAction> = Vec::new();
        let ghost pre = self@;
        let ghost msg = message@;
        let ghost first = table_add_result(pre.table, pre.node_id@, heard(msg.sender(), from, now), now);
        let ghost none = Seq::<(NodeId, SocketAddress)>::empty();
        proof {
            lemma_action_views_push(actions@, DhtAction::Stop);
        }
        stats.dht_messages_received = bumped(stats.dht_messages_received);
        match message {
            DhtMessage::Ping { sender_id } => {
                self.note_node(sender_id, from, now, &mut actions);
                let reply = DhtAction::Send {
                    to: from,
                    message: DhtMessage::Pong { sender_id: self.node_id },
                };
                proof {
                    lemma_action_views_push(actions@, reply);
                    assert(action_views(actions@) =~= discovery_of(first.1, sender_id, from));
                }
                actions.push(reply);
            },
            DhtMessage::Pong { sender_id } => {
                self.note_node(sender_id, from, now, &mut actions);
                proof {
                    assert(action_views(actions@) =~= discovery_of(first.1, sender_id, from)
                        + discoveries_of_nodes(first.0, pre.node_id@, none, now));
                }
            },
            DhtMessage::FindNode { sender_id, target } => {
                self.note_node(sender_id, from, now, &mut actions);
                let nodes = self.routing.find_closest_nodes(&target, LOOKUP_WIDTH);
                let ghost picked = nodes@;
                let reply = DhtAction::Send {
                    to: from,
                    message: DhtMessage::FindNodeResponse { sender_id: self.node_id, nodes },
                };
                proof {
                    lemma_action_views_push(actions@, reply);
                    assert(action_views(actions@) =~= discovery_of(first.1, sender_id, from));
                    assert(is_closest_selection(
                        all_entries(self@.table),
                        target@,
                        LOOKUP_WIDTH as nat,
                        picked,
                    ));
                }
                actions.push(reply);
                proof {
                    let news = discovery_of(first.1, sender_id, from) + discoveries_of_nodes(
                        first.0,
                        pre.node_id@,
                        none,
                        now,
                    );
                    assert(news =~= discovery_of(first.1, sender_id, from));
                    assert(action_views(actions@).drop_last() =~= news);
                }
            },
            DhtMessage::FindNodeResponse { sender_id, nodes } => {
                self.note_node(sender_id, from, now, &mut actions);
                self.note_nodes(&nodes, now, &mut actions);
            },
            DhtMessage::GetProviders { sender_id, info_hash } => {
                self.note_node(sender_id, from, now, &mut actions);
                let providers = self.answer_providers(&info_hash, from, now);
                let nodes = self.routing.find_closest_nodes(&info_hash, LOOKUP_WIDTH);
                let ghost picked = nodes@;
                let reply = DhtAction::Send {
                    to: from,
                    message: DhtMessage::GetProvidersResponse {
                        sender_id: self.node_id,
                        info_hash,
                        providers,
                        nodes,
                    },
                };
                proof {
                    lemma_action_views_push(actions@, reply);
                    assert(action_views(actions@) =~= discovery_of(first.1, sender_id, from));
                    assert(is_closest_selection(
                        all_entries(self@.table),
                        info_hash@,
                        LOOKUP_WIDTH as nat,
                        picked,
                    ));
                }
                actions.push(reply);
                proof {
                    let news = discovery_of(first.1, sender_id, from) + discoveries_of_nodes(
                        first.0,
                        pre.node_id@,
                        none,
                        now,
                    );
                    assert(news =~= discovery_of(first.1, sender_id, from));
                    assert(action_views(actions@).drop_last() =~= news);
                }
            },
            DhtMessage::GetProvidersResponse { sender_id, info_hash, providers, nodes } => {
                self.note_node(sender_id, from, now, &mut actions);
                self.note_nodes(&nodes, now, &mut actions);
                if providers.len() > 0 {
                    let ghost news = action_views(actions@);
                    let mut k: usize = 0;
                    while k < providers.len()
                        invariant
                            k <= providers@.len(),
                            action_views(actions@) == news + peers_found(
                                info_hash,
                                providers@.take(k as int),
                            ),
                        decreases providers@.len() - k,
                    {
                        let (peer_id, addr) = providers[k];
                        let found = DhtAction::PeerFound { info_hash, peer_id, addr };
                        proof {
                            lemma_action_views_push(actions@, found);
                        }
                        actions.push(found);
                        proof {
                            assert(action_views(actions@) =~= news + peers_found(
                                info_hash,
                                providers@.take(k + 1),
                            ));
                        }
                        k += 1;
                    }
                    let ghost listed = providers@;
                    let summary = DhtAction::ProvidersFound { info_hash, providers };
                    proof {
                        assert(listed.take(k as int) =~= listed);
                        lemma_action_views_push(actions@, summary);
                    }
                    actions.push(summary);
                    proof {
                        assert(action_views(actions@) =~= news + peers_found(
                            info_hash,
                            listed,
                        ).push(DhtActionView::ProvidersFound { info_hash, providers: listed }));
                    }
                } else {
                    proof {
                        assert(action_views(actions@) =~= action_views(actions@) + Seq::<
                            DhtActionView,
                        >::empty());
                    }
                }
            },
            DhtMessage::Announce { sender_id, info_hash, port } => {
                self.note_node(sender_id, from, now, &mut actions);
                self.providers.add_provider(
                    info_hash,
                    sender_id,
                    SocketAddress { ip: from.ip, port },
                    now,
                );
                stats.providers_stored = bumped(stats.providers_stored);
                let reply = DhtAction::Send {
                    to: from,
                    message: DhtMessage::AnnounceResponse { sender_id: self.node_id, success: true },
                };
                proof {
                    lemma_action_views_push(actions@, reply);
                    assert(action_views(actions@) =~= discovery_of(first.1, sender_id, from));
                }
                actions.push(reply);
            },
            DhtMessage::AnnounceResponse { sender_id, success: _ } => {
                self.note_node(sender_id, from, now, &mut actions);
                proof {
                    assert(action_views(actions@) =~= discovery_of(first.1, sender_id, from)
                        + discoveries_of_nodes(first.0, pre.node_id@, none, now));
                }
            },
        }
        stats.nodes_in_routing_table = self.routing.len() as u64;
        actions
    }
}

/// What carrying out `command` at time `now` does to a node and what it
/// makes the node ask of its owner.
///
/// Providing a file announces it to the up to eight known nodes closest to
/// it; a provider lookup is answered from the records at hand where there
/// are fresh ones, and otherwise asked of the up to eight closest nodes;
/// bootstrapping asks the given node for the nodes closest to this one; a
/// refresh pings the first node of every bucket; a cleanup purges what is
/// past its time-to-live.
pub open spec fn commanded(
    pre: DhtNodeView,
    command: DhtCommand,
    now: u64,
    post: DhtNodeView,
    actions: Seq<DhtActionView>,
) -> bool {
    &&& post.node_id == pre.node_id
    &&& post.local_port == pre.local_port
    &&& match command {
        DhtCommand::StartProviding { info_hash } => {
            &&& post.table == pre.table
            &&& post.store == pre.store
            &&& post.providing == if lists_file(pre.providing, info_hash@) {
                pre.providing
            } else {
                pre.providing.push(info_hash)
            }
            &&& exists|closest: Seq<(NodeId, SocketAddress)>|
                #![trigger addresses_of(closest)]
                is_closest_selection(
                    all_entries(pre.table),
                    info_hash@,
                    LOOKUP_WIDTH as nat,
                    closest,
                ) && actions == sends_to(
                    addresses_of(closest),
                    DhtMessageView::Announce {
                        sender_id: pre.node_id,
                        info_hash,
                        port: pre.local_port,
                    },
                )
        },
        DhtCommand::StopProviding { info_hash } => {
            &&& post.table == pre.table
            &&& post.store == pre.store
            &&& post.providing == files_without(pre.providing, info_hash@)
            &&& actions.len() == 0
        },
        DhtCommand::FindProviders { info_hash } => {
            let known = contacts_of(fresh_providers(providers_of(pre.store, info_hash@), now));
            &&& post.table == pre.table
            &&& post.store == pre.store
            &&& post.providing == pre.providing
            &&& if known.len() > 0 {
                actions == seq![DhtActionView::ProvidersFound { info_hash, providers: known }]
            } else {
                exists|closest: Seq<(NodeId, SocketAddress)>|
                    #![trigger addresses_of(closest)]
                    is_closest_selection(
                        all_entries(pre.table),
                        info_hash@,
                        LOOKUP_WIDTH as nat,
                        closest,
                    ) && actions == sends_to(
                        addresses_of(closest),
                        DhtMessageView::GetProviders { sender_id: pre.node_id, info_hash },
                    )
            }
        },
        DhtCommand::AddBootstrapNode { addr } => {
            &&& post.table == pre.table
            &&& post.store == pre.store
            &&& post.providing == pre.providing
            &&& actions == seq![
                DhtActionView::Send {
                    to: addr,
                    message: DhtMessageView::FindNode {
                        sender_id: pre.node_id,
                        target: pre.node_id,
                    },
                },
            ]
        },
        DhtCommand::AddPeer { node_id, addr } => {
            let added = table_add_result(pre.table, pre.node_id@, heard(node_id, addr, now), now);
            &&& post.table == added.0
            &&& post.store == pre.store
            &&& post.providing == pre.providing
            &&& actions == discovery_of(added.1, node_id, addr)
        },
        DhtCommand::Refresh => {
            &&& post.table == pre.table
            &&& post.store == pre.store
            &&& post.providing == pre.providing
            &&& actions == sends_to(
                first_contacts_of(pre.table),
                DhtMessageView::Ping { sender_id: pre.node_id },
            )
        },
        DhtCommand::Cleanup => {
            &&& post.table == table_purged(pre.table, now)
            &&& post.store == store_purged(pre.store, now)
            &&& post.providing == pre.providing
            &&& actions.len() == 0
        },
        DhtCommand::Shutdown => {
            &&& post.table == pre.table
            &&& post.store == pre.store
            &&& post.providing == pre.providing
            &&& actions == seq![DhtActionView::Stop]
        },
    }
}

impl DhtNode {
    /// Notes one datagram as sent.
    pub fn note_sent(stats: &mut StatsCollector)
        ensures
            *final(stats) == (StatsCollector {
                dht_messages_sent: bump(old(stats).dht_messages_sent),
                ..*old(stats)
            }),
    {
        stats.dht_messages_sent = bumped(stats.dht_messages_sent);
    }

    #[verifier::loop_isolation(false)]
    fn send_each(
        contacts: &Vec<(NodeId, SocketAddress)>,
        announce: Option<(InfoHash, u16)>,
        info_hash: InfoHash,
        sender_id: NodeId,
    ) -> (actions: Vec<DhtAction>)
        ensures
            action_views(actions@) == sends_to(
                addresses_of(contacts@),
                match announce {
                    Some((file, port)) => DhtMessageView::Announce { sender_id, info_hash: file, port },
                    None => DhtMessageView::GetProviders { sender_id, info_hash },
                },
            ),
    {
        let mut actions: Vec<DhtAction> = Vec::new();
        let ghost message = match announce {
            Some((file, port)) => DhtMessageView::Announce { sender_id, info_hash: file, port },
            None => DhtMessageView::GetProviders { sender_id, info_hash },
        };
        let mut i: usize = 0;
        proof {
            assert(action_views(actions@) =~= sends_to(
                addresses_of(contacts@.take(0)),
                message,
            ));
        }
        while i < contacts.len()
            invariant
                i <= contacts@.len(),
                action_views(actions@) == sends_to(addresses_of(contacts@.take(i as int)), message),
            decreases contacts@.len() - i,
        {
            let to = contacts[i].1;
            let message = match announce {
                Some((file, port)) => DhtMessage::Announce { sender_id, info_hash: file, port },
                None => DhtMessage::GetProviders { sender_id, info_hash },
            };
            let action = DhtAction::Send { to, message };
            proof {
                lemma_action_views_push(actions@, action);
            }
            actions.push(action);
            proof {
                assert(action_views(actions@) =~= sends_to(
                    addresses_of(contacts@.take(i + 1)),
                    message@,
                ));
            }
            i += 1;
        }
        proof {
            assert(contacts@.take(i as int) =~= contacts@);
        }
        actions
    }

    /// Carries out one command of the owner at time `now`, and says what
    /// to send and what to report.
    #[verifier::loop_isolation(false)]
    pub fn handle_command(&mut self, command: DhtCommand, now: u64, stats: &mut StatsCollector) -> (actions:
        Vec<DhtAction>)
        requires
            old(self).wf(),
        ensures
            final(self).wf(),
            commanded(old(self)@, command, now, final(self)@, action_views(actions@)),
            *final(stats) == (StatsCollector {
                nodes_in_routing_table: all_entries(final(self)@.table).len() as u64,
                ..*old(stats)
            }),
    {
        let ghost pre = self@;
        let actions = match command {
            DhtCommand::StartProviding { info_hash } => {
                if !self.is_providing(&info_hash) {
                    self.providing.push(info_hash);
                }
                let closest = self.routing.find_closest_nodes(&info_hash, LOOKUP_WIDTH);
                proof {
                    assert(addresses_of(closest@) == addresses_of(closest@));
                }
                DhtNode::send_each(
                    &closest,
                    Some((info_hash, self.local_port)),
                    info_hash,
                    self.node_id,
                )
            },
            DhtCommand::StopProviding { info_hash } => {
                let mut kept: Vec<InfoHash> = Vec::new();
                let mut i: usize = 0;
                proof {
                    crate::seq_util::lemma_filter_ends(
                        self.providing@,
                        |f: InfoHash| f@ != info_hash@,
                    );
                }
                while i < self.providing.len()
                    invariant
                        i <= self.providing@.len(),
                        self@ == pre,
                        kept@ == files_without(self.providing@.take(i as int), info_hash@),
                    decreases self.providing@.len() - i,
                {
                    proof {
                        crate::seq_util::lemma_filter_step(
                            self.providing@,
                            |f: InfoHash| f@ != info_hash@,
                            i as int,
                        );
                    }
                    let file = self.providing[i];
                    if !same_id(&file, &info_hash) {
                        kept.push(file);
                    }
                    i += 1;
                }
                self.providing = kept;
                Vec::new()
            },
            DhtCommand::FindProviders { info_hash } => {
                let known = self.providers.get_providers(&info_hash, now);
                if known.len() > 0 {
                    let mut actions: Vec<DhtAction> = Vec::new();
                    let action = DhtAction::ProvidersFound { info_hash, providers: known };
                    proof {
                        lemma_action_views_push(actions@, action);
                    }
                    actions.push(action);
                    proof {
                        assert(action_views(actions@) =~= seq![action@]);
                    }
                    actions
                } else {
                    let closest = self.routing.find_closest_nodes(&info_hash, LOOKUP_WIDTH);
                    proof {
                        assert(addresses_of(closest@) == addresses_of(closest@));
                    }
                    DhtNode::send_each(&closest, None, info_hash, self.node_id)
                }
            },
            DhtCommand::AddBootstrapNode { addr } => {
                let mut actions: Vec<DhtAction> = Vec::new();
                let action = DhtAction::Send {
                    to: addr,
                    message: DhtMessage::FindNode { sender_id: self.node_id, target: self.node_id },
                };
                proof {
                    lemma_action_views_push(actions@, action);
                }
                actions.push(action);
                proof {
                    assert(action_views(actions@) =~= seq![action@]);
                }
                actions
            },
            DhtCommand::AddPeer { node_id, addr } => {
                let mut actions: Vec<DhtAction> = Vec::new();
                proof {
                    lemma_action_views_push(actions@, DhtAction::Stop);
                }
                self.note_node(node_id, addr, now, &mut actions);
                proof {
                    let added = table_add_result(
                        pre.table,
                        pre.node_id@,
                        heard(node_id, addr, now),
                        now,
                    );
                    assert(action_views(actions@) =~= discovery_of(added.1, node_id, addr));
                }
                actions
            },
            DhtCommand::Refresh => {
                let contacts = self.routing.first_contacts();
                let mut actions: Vec<DhtAction> = Vec::new();
                let ghost ping = DhtMessageView::Ping { sender_id: self.node_id };
                let mut i: usize = 0;
                proof {
                    assert(action_views(actions@) =~= sends_to(contacts@.take(0), ping));
                }
                while i < contacts.len()
                    invariant
                        i <= contacts@.len(),
                        self@ == pre,
                        action_views(actions@) == sends_to(contacts@.take(i as int), ping),
                    decreases contacts@.len() - i,
                {
                    let action = DhtAction::Send {
                        to: contacts[i],
                        message: DhtMessage::Ping { sender_id: self.node_id },
                    };
                    proof {
                        lemma_action_views_push(actions@, action);
                    }
                    actions.push(action);
                    proof {
                        assert(action_views(actions@) =~= sends_to(contacts@.take(i + 1), ping));
                    }
                    i += 1;
                }
                proof {
                    assert(contacts@.take(i as int) =~= contacts@);
                }
                actions
            },
            DhtCommand::Cleanup => {
                self.routing.purge(now);
                self.providers.purge(now);
                let actions: Vec<DhtAction> = Vec::new();
                proof {
                    assert(action_views(actions@).len() == 0);
                }
                actions
            },
            DhtCommand::Shutdown => {
                let mut actions: Vec<DhtAction> = Vec::new();
                proof {
                    lemma_action_views_push(actions@, DhtAction::Stop);
                }
                actions.push(DhtAction::Stop);
                proof {
                    assert(action_views(actions@) =~= seq![DhtActionView::Stop]);
                }
                actions
            },
        };
        stats.nodes_in_routing_table = self.routing.len() as u64;
        actions
    }
}

/// A table of empty buckets has no entry.
pub proof fn lemma_empty_table(table: Seq<Seq<RoutingEntry>>)
    requires
        forall|b: int| 0 <= b < table.len() ==> (#[trigger] table[b]).len() == 0,
    ensures
        all_entries(table).len() == 0,
    decreases table.len(),
{
    if table.len() > 0 {
        let rest = table.drop_last();
        assert forall|b: int| 0 <= b < rest.len() implies (#[trigger] rest[b]).len() == 0 by {
            assert(rest[b] == table[b]);
        }
        lemma_empty_table(rest);
    }
}

} // verus!
