//! API server settings: the enable toggle, the hashed API key both
//! transports authenticate against, and the listening ports.

use crate::text::own;
use vstd::prelude::*;

verus! {

/// Default HTTP API port.
pub const DEFAULT_HTTP_PORT: u16 = 8642;

/// Default gRPC API port.
pub const DEFAULT_GRPC_PORT: u16 = 50051;

/// Persisted API server settings.
pub struct ApiSettings {
    pub enabled: bool,
    /// Hex-encoded SHA-256 of the API key. Empty until a key is first
    /// generated; the plaintext key itself is never stored.
    pub api_key_hash: String,
    pub port_http: u16,
    pub port_grpc: u16,
}

impl Default for ApiSettings {
    /// A fresh install: API disabled, no key yet, default ports.
    fn default() -> (s: ApiSettings)
        ensures
            !s.enabled,
            s.api_key_hash@.len() == 0,
            s.port_http == DEFAULT_HTTP_PORT,
            s.port_grpc == DEFAULT_GRPC_PORT,
    {
        ApiSettings {
            enabled: false,
            api_key_hash: String::new(),
            port_http: DEFAULT_HTTP_PORT,
            port_grpc: DEFAULT_GRPC_PORT,
        }
    }
}

impl Clone for ApiSettings {
    fn clone(&self) -> (s: ApiSettings)
        ensures
            s.enabled == self.enabled,
            s.api_key_hash@ == self.api_key_hash@,
            s.port_http == self.port_http,
            s.port_grpc == self.port_grpc,
    {
        ApiSettings {
            enabled: self.enabled,
            api_key_hash: own(self.api_key_hash.as_str()),
            port_http: self.port_http,
            port_grpc: self.port_grpc,
        }
    }
}

/// What the settings screen is shown: never the key or its hash, only
/// whether one exists, and whether the servers are actually listening.
#[derive(Clone, Copy, Debug)]
pub struct ApiSettingsView {
    pub enabled: bool,
    pub port_http: u16,
    pub port_grpc: u16,
    /// True once a key has ever been generated.
    pub has_key: bool,
    /// Whether the servers are accepting connections right now.
    pub listening: bool,
}

impl ApiSettings {
    /// The settings as the settings screen shows them.
    pub fn view_with(&self, listening: bool) -> (v: ApiSettingsView)
        ensures
            v.enabled == self.enabled,
            v.port_http == self.port_http,
            v.port_grpc == self.port_grpc,
            v.has_key == (self.api_key_hash@.len() > 0),
            v.listening == listening,
    {
        ApiSettingsView {
            enabled: self.enabled,
            port_http: self.port_http,
            port_grpc: self.port_grpc,
            has_key: crate::text::chars_of(self.api_key_hash.as_str()).len() > 0,
            listening,
        }
    }
}

} // verus!
