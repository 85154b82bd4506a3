//! Configuration consumed by the core: server-side policy switches and
//! shared secrets, client-side addresses and the managed OS account.
//!
//! Loading mechanics (file reading, TOML parsing) live outside the
//! library; the values arrive here as plain data.

use vstd::prelude::*;

verus! {

/// Whole configuration, constructed once at startup and passed by
/// reference into every component.
pub struct Config {
    pub server: ServerConfig,
    pub client: ClientConfig,
}

/// Server-side configuration values.
pub struct ServerConfig {
    /// Server port.
    pub port: u16,
    /// Shared secret gating the sync endpoint (stored pre-hashed).
    pub token: String,
    /// Whether the bind service accepts requests at all.
    pub enable_bind: bool,
    /// Whether an existing binding may be overwritten by a new bind call.
    pub enable_bind_update: bool,
    /// Whether the sync service accepts requests at all.
    pub enable_sync: bool,
    /// Whether static files are served beside the API.
    pub enable_static_file: bool,
    /// Shared secret gating the status and unbind endpoints (stored
    /// pre-hashed).
    pub panel_token: String,
}

/// Client-side configuration values.
pub struct ClientConfig {
    /// Skip the topology (IP match) check before binding; needed when a
    /// NAT sits between client and server.
    pub skip_ip_check: bool,
    /// Address of the binding server, without a trailing slash.
    pub server_addr: String,
    /// Path of the reverse-proxy configuration file to render.
    pub caddyfile: String,
    /// Upstream application address injected into the reverse-proxy
    /// configuration, without a trailing slash.
    pub domjudge_addr: String,
    /// Shared secret presented to the sync endpoint (stored pre-hashed).
    pub token: String,
    /// The managed OS account for the contestant.
    pub player_user: String,
    /// Password reapplied to the managed OS account on reset.
    pub player_user_password: String,
}

} // verus!
