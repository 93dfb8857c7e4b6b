//! The lifecycle of the embedded bootstrap service and its choice of ports.
//!
//! The service is stopped, starting, running or stopping; a start or a
//! stop that fails leaves it in an error state that only a stop clears.
//! Sockets, tasks and deadlines stay outside: the service is told how a
//! start or a stop ended and keeps the state.

use vstd::prelude::*;
use vstd::string::StringExecFns;
use crate::bootstrap::config::{BootstrapConfig, ConfigError};
use crate::bootstrap::stats::{elapsed_ms, elapsed_since, DhtStats, RelayStats, StatsCollector, MILLIS_PER_SEC};

verus! {

/// A start must end within this time (5 seconds).
pub const START_TIMEOUT_MS: u64 = 5_000;

/// A stop must end within this time (3 seconds).
pub const STOP_TIMEOUT_MS: u64 = 3_000;

/// Ports tried above the configured one before the system chooses.
pub const PORT_FALLBACK_RANGE: u16 = 10;

/// Discovery events held for the application at most.
pub const PEER_EVENT_CAPACITY: usize = 100;

/// Seconds without traffic after which a relay connection is closed.
pub const RELAY_IDLE_TIMEOUT_SECS: u64 = 300;

/// The state of the service.
#[derive(Clone, Debug)]
pub enum ServiceState {
    Stopped,
    Starting,
    Running,
    Stopping,
    Error(String),
}

/// A [`ServiceState`] as a mathematical value.
#[verifier::ext_equal]
pub enum ServiceStateView {
    Stopped,
    Starting,
    Running,
    Stopping,
    Error(Seq<char>),
}

impl View for ServiceState {
    type V = ServiceStateView;

    open spec fn view(&self) -> ServiceStateView {
        match *self {
            ServiceState::Stopped => ServiceStateView::Stopped,
            ServiceState::Starting => ServiceStateView::Starting,
            ServiceState::Running => ServiceStateView::Running,
            ServiceState::Stopping => ServiceStateView::Stopping,
            ServiceState::Error(text) => ServiceStateView::Error(text@),
        }
    }
}

impl ServiceStateView {
    /// The state in words.
    pub open spec fn text(self) -> Seq<char> {
        match self {
            ServiceStateView::Stopped => "stopped"@,
            ServiceStateView::Starting => "starting"@,
            ServiceStateView::Running => "running"@,
            ServiceStateView::Stopping => "stopping"@,
            ServiceStateView::Error(e) => "error: "@ + e,
        }
    }
}

impl ServiceState {
    /// The state in words.
    pub fn as_text(&self) -> (text: String)
        ensures
            text@ == self@.text(),
    {
        match self {
            ServiceState::Stopped => "stopped".to_owned(),
            ServiceState::Starting => "starting".to_owned(),
            ServiceState::Running => "running".to_owned(),
            ServiceState::Stopping => "stopping".to_owned(),
            ServiceState::Error(e) => {
                let mut text = "error: ".to_owned();
                text.append(e.as_str());
                text
            },
        }
    }

    /// A copy of the state.
    pub fn duplicate(&self) -> (copy: Self)
        ensures
            copy@ == self@,
    {
        match self {
            ServiceState::Stopped => ServiceState::Stopped,
            ServiceState::Starting => ServiceState::Starting,
            ServiceState::Running => ServiceState::Running,
            ServiceState::Stopping => ServiceState::Stopping,
            ServiceState::Error(e) => ServiceState::Error(e.clone()),
        }
    }
}

/// The ports that the service is bound to.
#[derive(Clone, Copy, Debug, PartialEq, Eq, Structural)]
pub struct BoundPorts {
    pub dht_port: u16,
    pub quic_port: u16,
    pub stats_port: u16,
}

/// A snapshot of the service.
#[derive(Clone, Debug)]
pub struct BootstrapStatus {
    pub state: String,
    pub uptime_secs: u64,
    pub bound_ports: Option<BoundPorts>,
    pub dht_stats: DhtStats,
    pub relay_stats: RelayStats,
    pub connected_bootstrap_nodes: usize,
    pub discovered_peers: usize,
    pub turn_enabled: bool,
}

/// The port to try at the `attempt`-th try for a service configured with
/// `preferred`: the system's choice (0) at once where none is preferred;
/// else the preferred port, then the ten ports above it, then the
/// system's choice; after that nothing.
pub open spec fn port_candidate(preferred: u16, attempt: nat) -> Option<u16> {
    if preferred == 0 {
        if attempt == 0 {
            Some(0u16)
        } else {
            None
        }
    } else if attempt == 0 {
        Some(preferred)
    } else if attempt <= PORT_FALLBACK_RANGE {
        Some(if preferred + attempt > u16::MAX { u16::MAX } else { (preferred + attempt) as u16 })
    } else if attempt == PORT_FALLBACK_RANGE + 1 {
        Some(0u16)
    } else {
        None
    }
}

/// Executable form of [`port_candidate`].
pub fn next_port_to_try(preferred: u16, attempt: u8) -> (port: Option<u16>)
    ensures
        port == port_candidate(preferred, attempt as nat),
{
    if preferred == 0 {
        if attempt == 0 {
            Some(0)
        } else {
            None
        }
    } else if attempt == 0 {
        Some(preferred)
    } else if attempt as u16 <= PORT_FALLBACK_RANGE {
        let step = attempt as u16;
        Some(if preferred > u16::MAX - step { u16::MAX } else { preferred + step })
    } else if attempt as u16 == PORT_FALLBACK_RANGE + 1 {
        Some(0)
    } else {
        None
    }
}

/// Every port that is tried for a preferred port `P` is `P`, one of the
/// ten ports above it, or the system's choice; the preferred port is
/// tried first, and the system's choice last.
pub proof fn lemma_port_fallback(preferred: u16, attempt: nat)
    ensures
        port_candidate(preferred, attempt).is_some() ==> port_candidate(preferred, attempt).unwrap()
            == 0 || preferred <= port_candidate(preferred, attempt).unwrap() <= preferred
            + PORT_FALLBACK_RANGE,
        port_candidate(preferred, 0) == Some(preferred),
        port_candidate(preferred, attempt).is_some() <==> attempt <= if preferred == 0 {
            0nat
        } else {
            (PORT_FALLBACK_RANGE + 1) as nat
        },
        preferred != 0 ==> port_candidate(preferred, (PORT_FALLBACK_RANGE + 1) as nat) == Some(0u16),
{
}

/// What the owner is to do once a start was taken up.
#[derive(Clone, Debug)]
pub struct StartPlan {
    pub dht_port: u16,
    pub quic_port: u16,
    pub stats_port: u16,
    /// Whether the relay is launched, and with how many sessions at most.
    pub relay_sessions: Option<usize>,
    pub enable_mdns_discovery: bool,
    pub external_bootstrap_nodes: Vec<String>,
}

/// Why a start is not taken up.
#[derive(Clone, Copy, Debug, PartialEq, Eq, Structural)]
pub enum StartRefusal {
    /// The service is not stopped.
    NotStopped,
    /// The configuration is not valid; the service is in its error state.
    InvalidConfig(ConfigError),
}

/// How a start ended.
#[derive(Debug)]
pub enum StartOutcome {
    /// Everything was launched on these ports.
    Started(BoundPorts),
    /// Something could not be launched.
    Failed(String),
    /// The deadline passed.
    TimedOut,
}

/// How a stop ended.
#[derive(Debug)]
pub enum StopOutcome {
    /// Everything was shut down.
    Stopped,
    /// Something could not be shut down.
    Failed(String),
    /// The deadline passed; what was left was cut off.
    TimedOut,
}

/// The text of the error state after a start that failed with `reason`.
pub open spec fn start_failure_text(reason: Seq<char>) -> Seq<char> {
    "service start failed: "@ + reason
}

/// The text of the error state after a start that passed its deadline.
pub open spec fn start_timeout_text() -> Seq<char> {
    "service start timed out (5 s)"@
}

/// The text of the error state after a stop that failed with `reason`.
pub open spec fn stop_failure_text(reason: Seq<char>) -> Seq<char> {
    "service stop failed: "@ + reason
}

/// The embedded bootstrap service.
#[derive(Debug)]
pub struct EmbeddedBootstrapService {
    state: ServiceState,
    config: BootstrapConfig,
    stats: StatsCollector,
    bound_ports: Option<BoundPorts>,
    started_at: Option<u64>,
    connected_bootstrap_nodes: usize,
    discovered_peers: usize,
}

/// The service as a mathematical value.
#[verifier::ext_equal]
pub struct ServiceView {
    pub state: ServiceStateView,
    pub config: BootstrapConfig,
    pub stats: StatsCollector,
    pub bound_ports: Option<BoundPorts>,
    pub started_at: Option<u64>,
    pub connected_bootstrap_nodes: usize,
    pub discovered_peers: usize,
}

impl View for EmbeddedBootstrapService {
    type V = ServiceView;

    closed spec fn view(&self) -> ServiceView {
        ServiceView {
            state: self.state@,
            config: self.config,
            stats: self.stats,
            bound_ports: self.bound_ports,
            started_at: self.started_at,
            connected_bootstrap_nodes: self.connected_bootstrap_nodes,
            discovered_peers: self.discovered_peers,
        }
    }
}

impl ServiceView {
    /// The service with everything of a run cleared away.
    pub open spec fn cleared(self) -> ServiceView {
        ServiceView {
            bound_ports: None,
            connected_bootstrap_nodes: 0,
            discovered_peers: 0,
            ..self
        }
    }
}

impl EmbeddedBootstrapService {
    /// A stopped service with this configuration.
    pub fn new(config: BootstrapConfig, now: u64) -> (service: Self)
        ensures
            service@ == (ServiceView {
                state: ServiceStateView::Stopped,
                config,
                stats: service@.stats,
                bound_ports: None,
                started_at: None,
                connected_bootstrap_nodes: 0,
                discovered_peers: 0,
            }),
            service@.stats.all_zero(),
    {
        EmbeddedBootstrapService {
            state: ServiceState::Stopped,
            config,
            stats: StatsCollector::new(now),
            bound_ports: None,
            started_at: None,
            connected_bootstrap_nodes: 0,
            discovered_peers: 0,
        }
    }

    /// The state.
    pub fn state(&self) -> (state: ServiceState)
        ensures
            state@ == self@.state,
    {
        self.state.duplicate()
    }

    /// The ports that the service is bound to, while it runs.
    pub fn bound_ports(&self) -> (ports: Option<BoundPorts>)
        ensures
            ports == self@.bound_ports,
    {
        self.bound_ports
    }

    /// The configuration.
    pub fn config(&self) -> (config: &BootstrapConfig)
        ensures
            *config == self@.config,
    {
        &self.config
    }

    /// Replaces the configuration; it takes effect at the next start.
    pub fn update_config(&mut self, new_config: BootstrapConfig)
        ensures
            final(self)@ == (ServiceView { config: new_config, ..old(self)@ }),
    {
        self.config = new_config;
    }

    /// The counters.
    pub fn stats(&self) -> (stats: StatsCollector)
        ensures
            stats == self@.stats,
    {
        self.stats
    }

    /// Replaces the counters by what the running parts have counted.
    pub fn record_stats(&mut self, stats: StatsCollector)
        ensures
            final(self)@ == (ServiceView { stats, ..old(self)@ }),
    {
        self.stats = stats;
    }

    /// Takes up a start at time `now`. Only a stopped service starts, and
    /// only with a valid configuration: an invalid one puts the service
    /// into its error state. A start that is taken up resets the counters
    /// and says what to launch.
    pub fn begin_start(&mut self, now: u64) -> (plan: Result<StartPlan, StartRefusal>)
        ensures
            !(old(self)@.state is Stopped) ==> plan == Err::<StartPlan, StartRefusal>(
                StartRefusal::NotStopped,
            ) && final(self)@ == old(self)@,
            old(self)@.state is Stopped && old(self)@.config.spec_check().is_err() ==> plan == Err::<
                StartPlan,
                StartRefusal,
            >(StartRefusal::InvalidConfig(old(self)@.config.spec_check().unwrap_err()))
                && final(self)@ == (ServiceView {
                state: ServiceStateView::Error(
                    old(self)@.config.spec_check().unwrap_err().spec_message(),
                ),
                ..old(self)@
            }),
            old(self)@.state is Stopped && old(self)@.config.spec_check().is_ok() ==> {
                &&& plan.is_ok()
                &&& plan.unwrap().dht_port == old(self)@.config.dht_port
                &&& plan.unwrap().quic_port == old(self)@.config.quic_port
                &&& plan.unwrap().stats_port == old(self)@.config.stats_port
                &&& plan.unwrap().relay_sessions == if old(self)@.config.enable_relay {
                    Some(old(self)@.config.max_relay_sessions)
                } else {
                    None
                }
                &&& plan.unwrap().enable_mdns_discovery == old(self)@.config.enable_mdns_discovery
                &&& final(self)@ == (ServiceView {
                    state: ServiceStateView::Starting,
                    stats: final(self)@.stats,
                    ..old(self)@
                })
                &&& final(self)@.stats.all_zero()
                &&& final(self)@.stats.started() == Some(now)
            },
    {
        match self.state {
            ServiceState::Stopped => {},
            _ => {
                return Err(StartRefusal::NotStopped);
            },
        }
        match self.config.check() {
            Err(e) => {
                self.state = ServiceState::Error(e.message());
                Err(StartRefusal::InvalidConfig(e))
            },
            Ok(()) => {
                self.state = ServiceState::Starting;
                self.stats.reset(now);
                Ok(
                    StartPlan {
                        dht_port: self.config.dht_port,
                        quic_port: self.config.quic_port,
                        stats_port: self.config.stats_port,
                        relay_sessions: if self.config.enable_relay {
                            Some(self.config.max_relay_sessions)
                        } else {
                            None
                        },
                        enable_mdns_discovery: self.config.enable_mdns_discovery,
                        external_bootstrap_nodes: self.config.external_bootstrap_nodes.clone(),
                    },
                )
            },
        }
    }

    /// Takes in how a start ended, at time `now`. A start that launched
    /// everything makes the service run on the ports it was bound to; one
    /// that failed or passed its deadline leaves the service in its error
    /// state with everything of the run cleared away. Nothing happens to
    /// a service that is not starting.
    pub fn complete_start(&mut self, outcome: StartOutcome, now: u64) -> (ports: Result<
        BoundPorts,
        String,
    >)
        ensures
            !(old(self)@.state is Starting) ==> final(self)@ == old(self)@ && ports.is_err()
                && ports.unwrap_err()@ == "service is not starting"@,
            old(self)@.state is Starting ==> match outcome {
                StartOutcome::Started(bound) => ports == Ok::<BoundPorts, String>(bound)
                    && final(self)@ == (ServiceView {
                    state: ServiceStateView::Running,
                    bound_ports: Some(bound),
                    started_at: Some(now),
                    ..old(self)@
                }),
                StartOutcome::Failed(reason) => ports.is_err() && ports.unwrap_err()@
                    == start_failure_text(reason@) && final(self)@ == (ServiceView {
                    state: ServiceStateView::Error(start_failure_text(reason@)),
                    ..old(self)@.cleared()
                }),
                StartOutcome::TimedOut => ports.is_err() && ports.unwrap_err()@
                    == start_timeout_text() && final(self)@ == (ServiceView {
                    state: ServiceStateView::Error(start_timeout_text()),
                    ..old(self)@.cleared()
                }),
            },
    {
        match self.state {
            ServiceState::Starting => {},
            _ => {
                return Err("service is not starting".to_owned());
            },
        }
        match outcome {
            StartOutcome::Started(bound) => {
                self.state = ServiceState::Running;
                self.bound_ports = Some(bound);
                self.started_at = Some(now);
                Ok(bound)
            },
            StartOutcome::Failed(reason) => {
                let mut text = "service start failed: ".to_owned();
                text.append(reason.as_str());
                self.state = ServiceState::Error(text.clone());
                self.cleanup();
                Err(text)
            },
            StartOutcome::TimedOut => {
                let text = "service start timed out (5 s)".to_owned();
                self.state = ServiceState::Error(text.clone());
                self.cleanup();
                Err(text)
            },
        }
    }

    /// Clears away everything of a run.
    pub fn cleanup(&mut self)
        ensures
            final(self)@ == old(self)@.cleared(),
    {
        self.bound_ports = None;
        self.connected_bootstrap_nodes = 0;
        self.discovered_peers = 0;
    }

    /// Takes up a stop and says whether there is anything to shut down:
    /// a stopped service stays as it is, any other is stopping from now on.
    pub fn begin_stop(&mut self) -> (needed: bool)
        ensures
            needed == !(old(self)@.state is Stopped),
            final(self)@ == if needed {
                ServiceView { state: ServiceStateView::Stopping, ..old(self)@ }
            } else {
                old(self)@
            },
    {
        match self.state {
            ServiceState::Stopped => false,
            _ => {
                self.state = ServiceState::Stopping;
                true
            },
        }
    }

    /// Takes in how a stop ended. A stop that shut everything down, and
    /// one that passed its deadline and cut off the rest, leave the
    /// service stopped; one that failed leaves it in its error state.
    /// Either way everything of the run is cleared away. Nothing happens
    /// to a service that is not stopping.
    pub fn complete_stop(&mut self, outcome: StopOutcome) -> (stopped: Result<(), String>)
        ensures
            !(old(self)@.state is Stopping) ==> final(self)@ == old(self)@ && stopped.is_ok(),
            old(self)@.state is Stopping ==> match outcome {
                StopOutcome::Stopped => stopped.is_ok() && final(self)@ == (ServiceView {
                    state: ServiceStateView::Stopped,
                    started_at: None,
                    ..old(self)@.cleared()
                }),
                StopOutcome::TimedOut => stopped.is_ok() && final(self)@ == (ServiceView {
                    state: ServiceStateView::Stopped,
                    started_at: None,
                    ..old(self)@.cleared()
                }),
                StopOutcome::Failed(reason) => stopped.is_err() && stopped.unwrap_err()@
                    == stop_failure_text(reason@) && final(self)@ == (ServiceView {
                    state: ServiceStateView::Error(stop_failure_text(reason@)),
                    ..old(self)@.cleared()
                }),
            },
    {
        match self.state {
            ServiceState::Stopping => {},
            _ => {
                return Ok(());
            },
        }
        self.cleanup();
        match outcome {
            StopOutcome::Stopped => {
                self.state = ServiceState::Stopped;
                self.started_at = None;
                Ok(())
            },
            StopOutcome::TimedOut => {
                self.state = ServiceState::Stopped;
                self.started_at = None;
                Ok(())
            },
            StopOutcome::Failed(reason) => {
                let mut text = "service stop failed: ".to_owned();
                text.append(reason.as_str());
                self.state = ServiceState::Error(text.clone());
                Err(text)
            },
        }
    }

    /// Notes that one more bootstrap node outside was reached.
    pub fn note_bootstrap_node(&mut self)
        ensures
            final(self)@ == (ServiceView {
                connected_bootstrap_nodes: if old(self)@.connected_bootstrap_nodes < usize::MAX {
                    (old(self)@.connected_bootstrap_nodes + 1) as usize
                } else {
                    usize::MAX
                },
                ..old(self)@
            }),
    {
        if self.connected_bootstrap_nodes < usize::MAX {
            self.connected_bootstrap_nodes = self.connected_bootstrap_nodes + 1;
        }
    }

    /// Notes that one more peer was discovered.
    pub fn note_discovered_peer(&mut self)
        ensures
            final(self)@ == (ServiceView {
                discovered_peers: if old(self)@.discovered_peers < usize::MAX {
                    (old(self)@.discovered_peers + 1) as usize
                } else {
                    usize::MAX
                },
                ..old(self)@
            }),
    {
        if self.discovered_peers < usize::MAX {
            self.discovered_peers = self.discovered_peers + 1;
        }
    }

    /// A snapshot of the service at time `now`.
    pub fn get_status(&self, now: u64) -> (status: BootstrapStatus)
        ensures
            status.state@ == self@.state.text(),
            status.uptime_secs == match self@.started_at {
                Some(t) => elapsed_ms(t, now) / MILLIS_PER_SEC,
                None => 0,
            },
            status.bound_ports == self@.bound_ports,
            status.dht_stats == (DhtStats {
                nodes_in_routing_table: self@.stats.nodes_in_routing_table,
                providers_stored: self@.stats.providers_stored,
                messages_received: self@.stats.dht_messages_received,
                messages_sent: self@.stats.dht_messages_sent,
            }),
            status.relay_stats == (RelayStats {
                active_sessions: self@.stats.active_relay_sessions,
                total_connections: self@.stats.relay_connections,
                bytes_relayed: self@.stats.bytes_relayed,
            }),
            status.connected_bootstrap_nodes == self@.connected_bootstrap_nodes,
            status.discovered_peers == self@.discovered_peers,
            status.turn_enabled == self@.config.enable_turn,
    {
        BootstrapStatus {
            state: self.state.as_text(),
            uptime_secs: match self.started_at {
                Some(t) => elapsed_since(t, now) / MILLIS_PER_SEC,
                None => 0,
            },
            bound_ports: self.bound_ports,
            dht_stats: self.stats.dht_stats(),
            relay_stats: self.stats.relay_stats(),
            connected_bootstrap_nodes: self.connected_bootstrap_nodes,
            discovered_peers: self.discovered_peers,
            turn_enabled: self.config.enable_turn,
        }
    }
}

/// After a start was taken up and its end taken in, the service runs on
/// the ports that the start returned, or is in its error state; never
/// anything else, and a snapshot taken then says the same.
pub proof fn lemma_start_ends_running_or_failed(
    starting: ServiceView,
    outcome: StartOutcome,
    now: u64,
    after: ServiceView,
    ports: Result<BoundPorts, Seq<char>>,
)
    requires
        starting.state is Starting,
        match outcome {
            StartOutcome::Started(bound) => ports == Ok::<BoundPorts, Seq<char>>(bound) && after == (
            ServiceView {
                state: ServiceStateView::Running,
                bound_ports: Some(bound),
                started_at: Some(now),
                ..starting
            }),
            StartOutcome::Failed(reason) => ports == Err::<BoundPorts, Seq<char>>(
                start_failure_text(reason@),
            ) && after == (ServiceView {
                state: ServiceStateView::Error(start_failure_text(reason@)),
                ..starting.cleared()
            }),
            StartOutcome::TimedOut => ports == Err::<BoundPorts, Seq<char>>(start_timeout_text())
                && after == (ServiceView {
                state: ServiceStateView::Error(start_timeout_text()),
                ..starting.cleared()
            }),
        },
    ensures
        ports.is_ok() <==> after.state is Running,
        ports.is_err() <==> after.state is Error,
        ports matches Ok(bound) ==> after.bound_ports == Some(bound),
        ports matches Err(text) ==> after.bound_ports.is_none() && after.state
            == ServiceStateView::Error(text),
{
}

} // verus!
