use ponswarp::bootstrap::config::{BootstrapConfig, ConfigError};
use ponswarp::bootstrap::service::{
    next_port_to_try, BoundPorts, EmbeddedBootstrapService, ServiceState, StartOutcome,
    StartRefusal, StopOutcome,
};
use ponswarp::bootstrap::stats::{build_response, route_request, StatsCollector, StatsRoute};

#[test]
fn default_config_is_valid() {
    let config = BootstrapConfig::default();
    assert!(config.enabled && config.enable_relay && config.enable_mdns_discovery);
    assert_eq!((config.dht_port, config.quic_port, config.stats_port), (6881, 6882, 6883));
    assert_eq!(config.max_relay_sessions, 50);
    assert!(config.external_bootstrap_nodes.is_empty());
    assert_eq!(config.validate(), Ok(()));
}

#[test]
fn relay_sessions_must_lie_between_one_and_a_thousand() {
    let mut config = BootstrapConfig::default();
    config.max_relay_sessions = 0;
    assert_eq!(config.validate(), Err("max_relay_sessions must be > 0".to_string()));
    assert_eq!(config.check(), Err(ConfigError::NoRelaySessions));
    config.max_relay_sessions = 1;
    assert_eq!(config.validate(), Ok(()));
    config.max_relay_sessions = 1000;
    assert_eq!(config.validate(), Ok(()));
    config.max_relay_sessions = 1001;
    assert_eq!(config.validate(), Err("max_relay_sessions must be <= 1000".to_string()));
    config.max_relay_sessions = 50;
    config.dht_port = 0;
    config.quic_port = 65535;
    assert_eq!(config.validate(), Ok(()));
}

#[test]
fn ports_fall_back_to_the_next_ten_and_then_the_system() {
    let tried: Vec<Option<u16>> = (0..14).map(|a| next_port_to_try(6881, a)).collect();
    let mut expected: Vec<Option<u16>> = (6881..=6891).map(Some).collect();
    expected.push(Some(0));
    expected.push(None);
    expected.push(None);
    assert_eq!(tried, expected);
    assert_eq!(next_port_to_try(0, 0), Some(0));
    assert_eq!(next_port_to_try(0, 1), None);
    assert_eq!(next_port_to_try(65530, 5), Some(65535));
    assert_eq!(next_port_to_try(65530, 10), Some(65535));
    assert_eq!(next_port_to_try(65530, 11), Some(0));
    assert_eq!(next_port_to_try(8080, 255), None);
}

#[test]
fn service_runs_through_its_lifecycle() {
    let mut service = EmbeddedBootstrapService::new(BootstrapConfig::default(), 0);
    assert!(matches!(service.state(), ServiceState::Stopped));
    assert_eq!(service.get_status(5).state, "stopped");
    assert!(!service.begin_stop());
    let plan = service.begin_start(1_000).unwrap();
    assert_eq!((plan.dht_port, plan.quic_port, plan.stats_port), (6881, 6882, 6883));
    assert_eq!(plan.relay_sessions, Some(50));
    assert!(plan.enable_mdns_discovery);
    assert_eq!(service.get_status(1_000).state, "starting");
    assert_eq!(service.begin_start(1_001).err(), Some(StartRefusal::NotStopped));
    let ports = BoundPorts { dht_port: 6882, quic_port: 6890, stats_port: 50123 };
    assert_eq!(service.complete_start(StartOutcome::Started(ports), 1_500), Ok(ports));
    let status = service.get_status(4_600);
    assert_eq!(status.state, "running");
    assert_eq!(status.bound_ports, Some(ports));
    assert_eq!(status.uptime_secs, 3);
    assert_eq!(service.bound_ports(), Some(ports));
    assert!(service.complete_start(StartOutcome::TimedOut, 2_000).is_err());
    assert_eq!(service.get_status(4_600).state, "running");
    service.note_bootstrap_node();
    service.note_discovered_peer();
    service.note_discovered_peer();
    let mut stats = service.stats();
    stats.dht_messages_received = 7;
    stats.relay_connections = 2;
    service.record_stats(stats);
    let status = service.get_status(4_600);
    assert_eq!((status.connected_bootstrap_nodes, status.discovered_peers), (1, 2));
    assert_eq!(status.dht_stats.messages_received, 7);
    assert_eq!(status.relay_stats.total_connections, 2);
    assert!(service.begin_stop());
    assert_eq!(service.get_status(5_000).state, "stopping");
    assert_eq!(service.complete_stop(StopOutcome::TimedOut), Ok(()));
    let status = service.get_status(6_000);
    assert_eq!(status.state, "stopped");
    assert_eq!(status.bound_ports, None);
    assert_eq!(status.uptime_secs, 0);
    assert_eq!(status.discovered_peers, 0);
    assert!(service.begin_start(7_000).is_ok());
    assert_eq!(service.stats().dht_messages_received, 0);
    assert_eq!(service.stats().uptime_secs(9_500), 2);
}

#[test]
fn failed_starts_end_in_the_error_state() {
    let mut service = EmbeddedBootstrapService::new(BootstrapConfig::default(), 0);
    service.begin_start(0).unwrap();
    assert_eq!(
        service.complete_start(StartOutcome::Failed("bind refused".to_string()), 10),
        Err("service start failed: bind refused".to_string())
    );
    assert!(matches!(service.state(), ServiceState::Error(text) if text == "service start failed: bind refused"));
    assert_eq!(service.get_status(20).state, "error: service start failed: bind refused");
    assert_eq!(service.begin_start(30).err(), Some(StartRefusal::NotStopped));
    assert!(service.begin_stop());
    assert_eq!(service.complete_stop(StopOutcome::Stopped), Ok(()));
    service.begin_start(40).unwrap();
    assert_eq!(
        service.complete_start(StartOutcome::TimedOut, 5_040),
        Err("service start timed out (5 s)".to_string())
    );
    assert!(service.begin_stop());
    assert_eq!(
        service.complete_stop(StopOutcome::Failed("task stuck".to_string())),
        Err("service stop failed: task stuck".to_string())
    );
    assert_eq!(service.get_status(50).state, "error: service stop failed: task stuck");
}

#[test]
fn invalid_config_never_starts() {
    let mut config = BootstrapConfig::default();
    config.max_relay_sessions = 5000;
    let mut service = EmbeddedBootstrapService::new(config, 0);
    assert_eq!(
        service.begin_start(0).err(),
        Some(StartRefusal::InvalidConfig(ConfigError::TooManyRelaySessions))
    );
    assert_eq!(service.get_status(0).state, "error: max_relay_sessions must be <= 1000");
    let mut config = BootstrapConfig::default();
    config.enable_relay = false;
    service.update_config(config);
    assert!(service.begin_stop());
    service.complete_stop(StopOutcome::Stopped).unwrap();
    assert_eq!(service.begin_start(0).unwrap().relay_sessions, None);
}

#[test]
fn stats_collector_counts_from_its_start() {
    let mut stats = StatsCollector::new(1_000);
    assert_eq!(stats.uptime_secs(999), 0);
    assert_eq!(stats.uptime_secs(2_999), 1);
    assert_eq!(stats.uptime_secs(61_000), 60);
    stats.bytes_relayed = 9;
    stats.nodes_in_routing_table = 3;
    stats.reset(5_000);
    assert_eq!(stats.bytes_relayed, 0);
    assert_eq!(stats.dht_stats().nodes_in_routing_table, 0);
    assert_eq!(stats.uptime_secs(7_000), 2);
}

#[test]
fn stats_listener_routes_and_answers() {
    assert_eq!(route_request(b"GET /stats HTTP/1.1\r\nHost: x\r\n\r\n"), StatsRoute::Stats);
    assert_eq!(route_request(b"GET / HTTP/1.1\r\n\r\n"), StatsRoute::Stats);
    assert_eq!(route_request(b"GET /health HTTP/1.1\r\n\r\n"), StatsRoute::Health);
    assert_eq!(route_request(b"GET /other HTTP/1.1\r\n\r\n"), StatsRoute::NotFound);
    assert_eq!(route_request(b"POST /stats HTTP/1.1\r\n\r\n"), StatsRoute::NotFound);
    assert_eq!(route_request(b""), StatsRoute::NotFound);
    let body = b"{\"status\":\"ok\"}";
    assert_eq!(
        String::from_utf8(build_response(StatsRoute::Stats, body)).unwrap(),
        "HTTP/1.1 200 OK\r\nContent-Type: application/json\r\nContent-Length: 15\r\nAccess-Control-Allow-Origin: *\r\n\r\n{\"status\":\"ok\"}"
    );
    assert_eq!(
        String::from_utf8(build_response(StatsRoute::Health, body)).unwrap(),
        "HTTP/1.1 200 OK\r\nContent-Type: text/plain\r\nContent-Length: 2\r\nAccess-Control-Allow-Origin: *\r\n\r\nOK"
    );
    assert_eq!(
        String::from_utf8(build_response(StatsRoute::NotFound, body)).unwrap(),
        "HTTP/1.1 404 Not Found\r\nContent-Type: text/plain\r\nContent-Length: 9\r\nAccess-Control-Allow-Origin: *\r\n\r\nNot Found"
    );
    let long = vec![b'x'; 12_345];
    let response = build_response(StatsRoute::Stats, &long);
    assert!(String::from_utf8(response).unwrap().contains("Content-Length: 12345\r\n"));
    assert!(String::from_utf8(build_response(StatsRoute::Stats, b"")).unwrap().contains("Content-Length: 0\r\n"));
}
