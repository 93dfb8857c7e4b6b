//! Counters of the bootstrap service and the snapshots served from them.

use vstd::prelude::*;
use vstd::string::StringSliceAdditionalSpecFns;
use crate::seq_util::{contains_bytes, decimal_digits, occurs_in, to_decimal};

verus! {

/// Milliseconds in a second.
pub const MILLIS_PER_SEC: u64 = 1000;

/// Milliseconds that passed between two readings of a monotonic clock;
/// zero where the later reading is not later.
pub open spec fn elapsed_ms(since: u64, now: u64) -> u64 {
    if now >= since {
        (now - since) as u64
    } else {
        0
    }
}

/// Executable form of [`elapsed_ms`].
pub fn elapsed_since(since: u64, now: u64) -> (ms: u64)
    ensures
        ms == elapsed_ms(since, now),
{
    if now >= since {
        now - since
    } else {
        0
    }
}

/// One more, stopping at the largest value.
pub open spec fn bump(count: u64) -> u64 {
    if count < u64::MAX {
        (count + 1) as u64
    } else {
        count
    }
}

/// Executable form of [`bump`].
pub fn bumped(count: u64) -> (next: u64)
    ensures
        next == bump(count),
{
    if count < u64::MAX {
        count + 1
    } else {
        count
    }
}

/// Counters of one run of the service. Times are readings of a monotonic
/// clock in milliseconds, handed in by the caller.
#[derive(Clone, Copy, Debug, PartialEq, Eq, Structural)]
pub struct StatsCollector {
    pub started_at: Option<u64>,
    pub dht_messages_received: u64,
    pub dht_messages_sent: u64,
    pub nodes_in_routing_table: u64,
    pub providers_stored: u64,
    pub relay_connections: u64,
    pub bytes_relayed: u64,
    pub active_relay_sessions: u64,
}

/// The DHT part of a status snapshot.
#[derive(Clone, Copy, Debug, PartialEq, Eq, Structural)]
pub struct DhtStats {
    pub nodes_in_routing_table: u64,
    pub providers_stored: u64,
    pub messages_received: u64,
    pub messages_sent: u64,
}

/// The relay part of a status snapshot.
#[derive(Clone, Copy, Debug, PartialEq, Eq, Structural)]
pub struct RelayStats {
    pub active_sessions: u64,
    pub total_connections: u64,
    pub bytes_relayed: u64,
}

impl StatsCollector {
    /// The reading of the clock at which the counters were last started.
    pub open spec fn started(&self) -> Option<u64> {
        self.started_at
    }

    /// Every counter is zero.
    pub open spec fn all_zero(&self) -> bool {
        &&& self.dht_messages_received == 0
        &&& self.dht_messages_sent == 0
        &&& self.nodes_in_routing_table == 0
        &&& self.providers_stored == 0
        &&& self.relay_connections == 0
        &&& self.bytes_relayed == 0
        &&& self.active_relay_sessions == 0
    }

    /// Fresh counters, started at `now`.
    pub fn new(now: u64) -> (stats: Self)
        ensures
            stats.started() == Some(now),
            stats.all_zero(),
    {
        StatsCollector {
            started_at: Some(now),
            dht_messages_received: 0,
            dht_messages_sent: 0,
            nodes_in_routing_table: 0,
            providers_stored: 0,
            relay_connections: 0,
            bytes_relayed: 0,
            active_relay_sessions: 0,
        }
    }

    /// Whole seconds since the counters were started; zero if they never were.
    pub fn uptime_secs(&self, now: u64) -> (secs: u64)
        ensures
            secs == match self.started() {
                Some(t) => elapsed_ms(t, now) / MILLIS_PER_SEC,
                None => 0,
            },
    {
        match self.started_at {
            Some(t) => elapsed_since(t, now) / MILLIS_PER_SEC,
            None => 0,
        }
    }

    /// Zeroes every counter and restarts the clock at `now`.
    pub fn reset(&mut self, now: u64)
        ensures
            final(self).started() == Some(now),
            final(self).all_zero(),
    {
        self.started_at = Some(now);
        self.dht_messages_received = 0;
        self.dht_messages_sent = 0;
        self.nodes_in_routing_table = 0;
        self.providers_stored = 0;
        self.relay_connections = 0;
        self.bytes_relayed = 0;
        self.active_relay_sessions = 0;
    }

    /// The DHT counters as a snapshot.
    pub fn dht_stats(&self) -> (snapshot: DhtStats)
        ensures
            snapshot == (DhtStats {
                nodes_in_routing_table: self.nodes_in_routing_table,
                providers_stored: self.providers_stored,
                messages_received: self.dht_messages_received,
                messages_sent: self.dht_messages_sent,
            }),
    {
        DhtStats {
            nodes_in_routing_table: self.nodes_in_routing_table,
            providers_stored: self.providers_stored,
            messages_received: self.dht_messages_received,
            messages_sent: self.dht_messages_sent,
        }
    }

    /// The relay counters as a snapshot.
    pub fn relay_stats(&self) -> (snapshot: RelayStats)
        ensures
            snapshot == (RelayStats {
                active_sessions: self.active_relay_sessions,
                total_connections: self.relay_connections,
                bytes_relayed: self.bytes_relayed,
            }),
    {
        RelayStats {
            active_sessions: self.active_relay_sessions,
            total_connections: self.relay_connections,
            bytes_relayed: self.bytes_relayed,
        }
    }
}

/// What a request to the stats listener asks for.
#[derive(Clone, Copy, Debug, PartialEq, Eq, Structural)]
pub enum StatsRoute {
    /// `GET /stats`, or `GET /`: the counters as JSON.
    Stats,
    /// `GET /health`: the text `OK`.
    Health,
    /// Anything else: not found.
    NotFound,
}

/// The route of a request, read from its bytes.
pub open spec fn route_of(request: Seq<u8>) -> StatsRoute {
    if occurs_in(request, "GET /stats".spec_bytes()) || occurs_in(request, "GET / ".spec_bytes()) {
        StatsRoute::Stats
    } else if occurs_in(request, "GET /health".spec_bytes()) {
        StatsRoute::Health
    } else {
        StatsRoute::NotFound
    }
}

/// Executable form of [`route_of`].
pub fn route_request(request: &[u8]) -> (route: StatsRoute)
    ensures
        route == route_of(request@),
{
    if contains_bytes(request, "GET /stats".as_bytes()) || contains_bytes(
        request,
        "GET / ".as_bytes(),
    ) {
        StatsRoute::Stats
    } else if contains_bytes(request, "GET /health".as_bytes()) {
        StatsRoute::Health
    } else {
        StatsRoute::NotFound
    }
}

/// The status line and the content type of the answer to a route.
pub open spec fn head_start(route: StatsRoute) -> Seq<u8> {
    match route {
        StatsRoute::Stats => "HTTP/1.1 200 OK\r\nContent-Type: application/json\r\nContent-Length: ".spec_bytes(),
        StatsRoute::Health => "HTTP/1.1 200 OK\r\nContent-Type: text/plain\r\nContent-Length: ".spec_bytes(),
        StatsRoute::NotFound => "HTTP/1.1 404 Not Found\r\nContent-Type: text/plain\r\nContent-Length: ".spec_bytes(),
    }
}

/// What every answer ends its head with: any origin may read it.
pub open spec fn head_end() -> Seq<u8> {
    "\r\nAccess-Control-Allow-Origin: *\r\n\r\n".spec_bytes()
}

/// The body of the answers that carry a fixed text.
pub open spec fn fixed_body(route: StatsRoute) -> Seq<u8> {
    match route {
        StatsRoute::Stats => Seq::empty(),
        StatsRoute::Health => "OK".spec_bytes(),
        StatsRoute::NotFound => "Not Found".spec_bytes(),
    }
}

/// The answer to a route: status line, content type, the length of the
/// body, the header that lets any origin read it, an empty line and the
/// body. The body of the stats route is the JSON handed in; the other
/// routes have their own.
pub open spec fn response_of(route: StatsRoute, stats_json: Seq<u8>) -> Seq<u8> {
    let body = if route is Stats { stats_json } else { fixed_body(route) };
    head_start(route) + decimal_digits(body.len()) + head_end() + body
}

fn append_all(to: &mut Vec<u8>, from: &[u8])
    ensures
        final(to)@ == old(to)@ + from@,
{
    let mut i: usize = 0;
    while i < from.len()
        invariant
            i <= from@.len(),
            to@ == old(to)@ + from@.take(i as int),
        decreases from@.len() - i,
    {
        to.push(from[i]);
        proof {
            assert(to@ =~= old(to)@ + from@.take(i + 1));
        }
        i += 1;
    }
    proof {
        assert(from@.take(i as int) =~= from@);
    }
}

/// Executable form of [`response_of`].
pub fn build_response(route: StatsRoute, stats_json: &[u8]) -> (response: Vec<u8>)
    ensures
        response@ == response_of(route, stats_json@),
{
    let mut response: Vec<u8> = Vec::new();
    let start = match route {
        StatsRoute::Stats => "HTTP/1.1 200 OK\r\nContent-Type: application/json\r\nContent-Length: ",
        StatsRoute::Health => "HTTP/1.1 200 OK\r\nContent-Type: text/plain\r\nContent-Length: ",
        StatsRoute::NotFound => "HTTP/1.1 404 Not Found\r\nContent-Type: text/plain\r\nContent-Length: ",
    };
    append_all(&mut response, start.as_bytes());
    let body: &[u8] = match route {
        StatsRoute::Stats => stats_json,
        StatsRoute::Health => "OK".as_bytes(),
        StatsRoute::NotFound => "Not Found".as_bytes(),
    };
    let digits = to_decimal(body.len());
    append_all(&mut response, digits.as_slice());
    append_all(&mut response, "\r\nAccess-Control-Allow-Origin: *\r\n\r\n".as_bytes());
    append_all(&mut response, body);
    response
}

} // verus!
