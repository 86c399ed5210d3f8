//! Configuration records shared by the hosts: server settings, vessel
//! details, security settings and WiFi credentials.
use vstd::prelude::*;

verus! {

/// Why a configuration could not be read or written.
#[derive(Debug, Clone, PartialEq, Eq)]
pub enum ConfigError {
    NotFound(String),
    ReadError(String),
    WriteError(String),
    InvalidData(String),
    StorageUnavailable(String),
}

/// Which interfaces the server offers.
#[derive(Debug, Clone, Default, PartialEq, Eq)]
pub struct InterfaceSettings {
    pub rest: Option<bool>,
    pub signalk_ws: Option<bool>,
    pub plugins: Option<bool>,
    pub appstore: Option<bool>,
    pub tcp: Option<bool>,
    pub webapps: Option<bool>,
}

/// Server settings.
#[derive(Debug, Clone, Default, PartialEq, Eq)]
pub struct ServerSettings {
    pub interfaces: Option<InterfaceSettings>,
    pub port: Option<u16>,
    pub sslport: Option<u16>,
    pub ssl: Option<bool>,
    pub ws_compression: Option<bool>,
    pub mdns: Option<bool>,
    pub prune_contexts_minutes: Option<u32>,
    pub access_logging: Option<bool>,
    pub logging_directory: Option<String>,
    pub keep_most_recent_logs_only: Option<bool>,
    pub log_count_to_keep: Option<u32>,
    pub enable_plugin_logging: Option<bool>,
}

/// The vessel's identity.
#[derive(Debug, Clone, Default, PartialEq, Eq)]
pub struct VesselInfo {
    pub name: Option<String>,
    pub mmsi: Option<String>,
    pub uuid: Option<String>,
    pub callsign: Option<String>,
}

/// A user account.
#[derive(Debug, Clone, PartialEq, Eq)]
pub struct UserRecord {
    pub user_id: String,
    pub user_type: String,
    pub password_hash: Option<String>,
}

/// A device granted access.
#[derive(Debug, Clone, PartialEq, Eq)]
pub struct DeviceRecord {
    pub client_id: String,
    pub description: Option<String>,
    pub permissions: String,
}

/// Security settings with the accounts and devices.
#[derive(Debug, Clone, Default, PartialEq, Eq)]
pub struct SecurityConfig {
    pub allow_read_only: Option<bool>,
    pub expiration: Option<String>,
    pub allow_new_user_registration: Option<bool>,
    pub allow_device_access_requests: Option<bool>,
    pub users: Option<Vec<UserRecord>>,
    pub devices: Option<Vec<DeviceRecord>>,
}

/// Handlers for the configuration endpoints.
#[derive(Debug, Clone, Copy, PartialEq, Eq)]
pub struct ConfigHandlers;

/// WiFi credentials of a station.
#[derive(Debug, Clone, Default, PartialEq, Eq)]
pub struct WifiConfig {
    pub ssid: String,
    /// Empty for an open network.
    pub password: String,
}

/// How far a WiFi station has got.
#[derive(Debug, Clone, Copy, PartialEq, Eq)]
pub enum WifiStatus {
    Disconnected,
    Connecting,
    WaitingForIp,
    Connected,
}

/// A failure of the embedded host.
#[derive(Debug, Clone, Copy, PartialEq, Eq)]
pub struct SignalKError {}

/// Settings of the web host.
#[derive(Debug, Clone, PartialEq, Eq)]
pub struct WebConfig {
    pub name: String,
    pub version: String,
    pub self_urn: String,
}

} // verus!
