//! The configuration of the embedded bootstrap service.

use vstd::prelude::*;

verus! {

/// The most relay sessions that a configuration may allow.
pub const MAX_RELAY_SESSIONS_LIMIT: usize = 1000;

/// The configuration. A port of 0 leaves the choice to the system.
#[derive(Clone, Debug)]
pub struct BootstrapConfig {
    pub enabled: bool,
    pub dht_port: u16,
    pub quic_port: u16,
    pub stats_port: u16,
    /// Addresses of bootstrap nodes outside, as text.
    pub external_bootstrap_nodes: Vec<String>,
    pub enable_mdns_discovery: bool,
    pub enable_relay: bool,
    pub max_relay_sessions: usize,
    pub enable_turn: bool,
    pub turn_server_url: Option<String>,
    pub turn_realm: Option<String>,
    pub turn_username: Option<String>,
    pub turn_password: Option<String>,
    pub turn_secret: Option<String>,
}

/// What is wrong with a configuration.
#[derive(Clone, Copy, Debug, PartialEq, Eq, Structural)]
pub enum ConfigError {
    /// No relay session is allowed.
    NoRelaySessions,
    /// More relay sessions are allowed than the limit.
    TooManyRelaySessions,
}

impl ConfigError {
    /// The message of the error.
    pub open spec fn spec_message(self) -> Seq<char> {
        match self {
            ConfigError::NoRelaySessions => "max_relay_sessions must be > 0"@,
            ConfigError::TooManyRelaySessions => "max_relay_sessions must be <= 1000"@,
        }
    }

    /// The message of the error.
    pub fn message(&self) -> (text: String)
        ensures
            text@ == self.spec_message(),
    {
        match self {
            ConfigError::NoRelaySessions => "max_relay_sessions must be > 0".to_owned(),
            ConfigError::TooManyRelaySessions => "max_relay_sessions must be <= 1000".to_owned(),
        }
    }
}

impl Default for BootstrapConfig {
    fn default() -> (config: Self)
        ensures
            config.enabled,
            config.dht_port == 6881,
            config.quic_port == 6882,
            config.stats_port == 6883,
            config.external_bootstrap_nodes@.len() == 0,
            config.enable_mdns_discovery,
            config.enable_relay,
            config.max_relay_sessions == 50,
            !config.enable_turn,
            config.spec_check().is_ok(),
    {
        BootstrapConfig {
            enabled: true,
            dht_port: 6881,
            quic_port: 6882,
            stats_port: 6883,
            external_bootstrap_nodes: Vec::new(),
            enable_mdns_discovery: true,
            enable_relay: true,
            max_relay_sessions: 50,
            enable_turn: false,
            turn_server_url: None,
            turn_realm: None,
            turn_username: None,
            turn_password: None,
            turn_secret: None,
        }
    }
}

impl BootstrapConfig {
    /// What is wrong with the configuration, if anything: the number of
    /// relay sessions must lie between 1 and 1000; every port is fine.
    pub open spec fn spec_check(&self) -> Result<(), ConfigError> {
        if self.max_relay_sessions == 0 {
            Err(ConfigError::NoRelaySessions)
        } else if self.max_relay_sessions > MAX_RELAY_SESSIONS_LIMIT {
            Err(ConfigError::TooManyRelaySessions)
        } else {
            Ok(())
        }
    }

    /// Executable form of [`BootstrapConfig::spec_check`].
    pub fn check(&self) -> (checked: Result<(), ConfigError>)
        ensures
            checked == self.spec_check(),
    {
        if self.max_relay_sessions == 0 {
            Err(ConfigError::NoRelaySessions)
        } else if self.max_relay_sessions > MAX_RELAY_SESSIONS_LIMIT {
            Err(ConfigError::TooManyRelaySessions)
        } else {
            Ok(())
        }
    }

    /// Checks the configuration and says in words what is wrong with it.
    pub fn validate(&self) -> (checked: Result<(), String>)
        ensures
            checked.is_ok() <==> 1 <= self.max_relay_sessions <= MAX_RELAY_SESSIONS_LIMIT,
            checked.is_err() ==> self.spec_check().is_err() && checked.unwrap_err()@
                == self.spec_check().unwrap_err().spec_message(),
    {
        match self.check() {
            Ok(()) => Ok(()),
            Err(e) => Err(e.message()),
        }
    }
}

} // verus!
