//! Records exchanged with the administration interface.
use vstd::prelude::*;

verus! {

/// Whether and how a client is logged in.
#[derive(Debug, Clone, PartialEq, Eq)]
pub struct LoginStatus {
    pub status: String,
    pub username: Option<String>,
    pub user_level: Option<String>,
    pub read_only_access: Option<bool>,
    pub authentication_required: Option<bool>,
    pub allow_new_user_registration: Option<bool>,
    pub allow_device_access_requests: Option<bool>,
}

#[derive(Debug, Clone, PartialEq, Eq)]
pub struct LoginRequest {
    pub username: String,
    pub password: String,
}

#[derive(Debug, Clone, PartialEq, Eq)]
pub struct LoginResponse {
    pub token: String,
}

/// A device asking for access.
#[derive(Debug, Clone, PartialEq, Eq)]
pub struct AccessRequest {
    pub client_id: String,
    pub description: Option<String>,
}

#[derive(Debug, Clone, PartialEq, Eq)]
pub struct AccessRequestResponse {
    pub request_id: String,
    pub href: String,
}

/// The state of an access request.
#[derive(Debug, Clone, PartialEq, Eq)]
pub struct RequestStatus {
    pub state: String,
    pub request_id: String,
    pub access_request: Option<AccessGranted>,
}

#[derive(Debug, Clone, PartialEq, Eq)]
pub struct AccessGranted {
    pub permission: String,
    pub token: String,
}

#[derive(Debug, Clone, PartialEq, Eq)]
pub struct BackupResponse {
    pub href: String,
}

#[derive(Debug, Clone, PartialEq, Eq)]
pub struct RestoreResponse {
    pub status: String,
    pub message: String,
}

/// Debug namespaces to switch on and off.
#[derive(Debug, Clone, PartialEq, Eq)]
pub struct DebugRequest {
    pub enable: Option<Vec<String>>,
    pub disable: Option<Vec<String>>,
}

/// Which interfaces the server offers, as the settings page shows them.
#[derive(Debug, Clone, Default, PartialEq, Eq)]
pub struct InterfaceSettings {
    pub appstore: Option<bool>,
    pub plugins: Option<bool>,
    pub rest: Option<bool>,
    pub signalk_ws: Option<bool>,
    pub tcp: Option<bool>,
    pub webapps: Option<bool>,
}

/// Server settings as the settings page shows them.
#[derive(Debug, Clone, Default, PartialEq, Eq)]
pub struct ServerSettings {
    pub interfaces: Option<InterfaceSettings>,
    pub port: Option<u16>,
    pub sslport: Option<u16>,
    pub ssl: Option<bool>,
    pub ws_compression: Option<bool>,
    pub access_logging: Option<bool>,
    pub mdns: Option<bool>,
    pub prune_contexts_minutes: Option<u32>,
    pub logging_directory: Option<String>,
    pub keep_most_recent_logs_only: Option<bool>,
    pub log_count_to_keep: Option<u32>,
    pub enable_plugin_logging: Option<bool>,
}

#[derive(Debug, Clone, Default, PartialEq, Eq)]
pub struct VesselCommunication {
    pub callsign_vhf: Option<String>,
}

/// An entry of the app store.
#[derive(Debug, Clone, PartialEq, Eq)]
pub struct AppStoreEntry {
    pub name: String,
    pub version: String,
    pub description: Option<String>,
    pub is_plugin: bool,
    pub is_webapp: bool,
    pub installed: bool,
    pub update_available: bool,
}

/// An installed web application.
#[derive(Debug, Clone, PartialEq, Eq)]
pub struct Webapp {
    pub name: String,
    pub version: String,
    pub description: Option<String>,
    pub location: String,
}

/// Security settings as the security page shows them.
#[derive(Debug, Clone, Default, PartialEq, Eq)]
pub struct SecurityConfig {
    pub allow_read_only: Option<bool>,
    pub expiration: Option<String>,
    pub allow_new_user_registration: Option<bool>,
    pub allow_device_access_requests: Option<bool>,
}

#[derive(Debug, Clone, PartialEq, Eq)]
pub struct User {
    pub user_id: String,
    pub user_type: String,
    pub password: Option<String>,
}

#[derive(Debug, Clone, PartialEq, Eq)]
pub struct PasswordChange {
    pub password: String,
}

#[derive(Debug, Clone, PartialEq, Eq)]
pub struct Device {
    pub client_id: String,
    pub description: Option<String>,
    pub permissions: String,
}

/// An access request waiting for a decision.
#[derive(Debug, Clone, PartialEq, Eq)]
pub struct PendingRequest {
    pub request_id: String,
    pub client_id: String,
    pub description: Option<String>,
    pub timestamp: String,
}

/// The vessel's name and identifier, as the dashboard shows them.
#[derive(Debug, Clone, Default, PartialEq, Eq)]
pub struct VesselInfoData {
    pub name: Option<String>,
    /// The vessel identifier without the `vessels.` prefix.
    pub uuid: String,
}

#[derive(Debug, Clone, Default, PartialEq, Eq)]
pub struct DebugSettings {
    pub debug_enabled: String,
    pub remember_debug: bool,
}

/// Source priorities (none are kept yet).
#[derive(Debug, Clone, Default, PartialEq, Eq)]
pub struct SourcePriorities {}

/// Deltas a provider has delivered.
#[derive(Debug, Clone, PartialEq, Eq)]
pub struct ProviderStatistics {
    pub id: String,
    pub delta_count: u64,
}

/// Whether a provider is connected.
#[derive(Debug, Clone, PartialEq, Eq)]
pub struct ProviderStatus {
    pub id: String,
    pub provider_type: String,
    pub connected: bool,
    pub error: Option<String>,
}

/// A log line for the dashboard.
#[derive(Debug, Clone, PartialEq, Eq)]
pub struct LogEntry {
    pub level: String,
    pub message: String,
    pub timestamp: String,
    pub namespace: Option<String>,
}

impl LogEntry {
    /// A log line stamped with the current time as ISO 8601 UTC text.
    pub fn new(level: &str, message: &str) -> (r: Self)
        ensures
            r.level@ == level@,
            r.message@ == message@,
            r.namespace is None,
            exists|secs: u64, millis: u32| millis < 1000 && r.timestamp@ == crate::clock::timestamp_text(secs, millis),
    {
        LogEntry {
            level: level.to_owned(),
            message: message.to_owned(),
            timestamp: crate::clock::current_timestamp(),
            namespace: None,
        }
    }

    /// A log line in a namespace, stamped with the current time as ISO 8601 UTC text.
    pub fn with_namespace(level: &str, message: &str, namespace: &str) -> (r: Self)
        ensures
            r.level@ == level@,
            r.message@ == message@,
            r.namespace matches Some(n) && n@ == namespace@,
            exists|secs: u64, millis: u32| millis < 1000 && r.timestamp@ == crate::clock::timestamp_text(secs, millis),
    {
        LogEntry {
            level: level.to_owned(),
            message: message.to_owned(),
            timestamp: crate::clock::current_timestamp(),
            namespace: Some(namespace.to_owned()),
        }
    }
}

} // verus!
