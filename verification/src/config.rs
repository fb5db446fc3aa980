//! The settings read from the configuration file.
use vstd::prelude::*;

verus! {

/// The configuration file read when no other is named (`.toml` is implied).
pub const DEFAULT_CONFIG_FILE: &'static str = "config/default";

#[derive(Debug, Clone)]
pub struct ServerSettings {
    pub http_port: u16,
    pub https_port: u16,
    pub http_enabled: bool,
    pub https_enabled: bool,
    pub behind_proxy: bool,
    pub public_base_url: Option<String>,
}

#[derive(Debug, Clone)]
pub struct RegistrySettings {
    pub default: String,
    pub upstream_registry: Option<String>,
    pub auth_realm: Option<String>,
    pub auth_service: Option<String>,
    pub auto_library_prefix: bool,
    pub public_base_url: Option<String>,
    pub upstreams: Vec<RegistryUpstreamSettings>,
}

#[derive(Debug, Clone)]
pub struct RegistryUpstreamSettings {
    pub name: String,
    pub hosts: Vec<String>,
    pub upstream_registry: String,
    pub auth_realm: String,
    pub auth_service: String,
    pub auto_library_prefix: bool,
    pub public_base_url: Option<String>,
}

#[derive(Debug, Clone)]
pub struct TlsSettings {
    pub cert_path: String,
    pub key_path: String,
}

#[derive(Debug, Clone)]
pub struct Settings {
    pub server: ServerSettings,
    pub registry: RegistrySettings,
    pub tls: TlsSettings,
}

/// Name of the default registry when the configuration names none.
pub fn default_registry_name() -> (name: String)
    ensures
        name@ == "dockerhub"@,
{
    String::from_str("dockerhub")
}

/// The value of `registry.auto_library_prefix` when the configuration omits it.
pub fn default_true() -> (b: bool)
    ensures
        b,
{
    true
}

} // verus!
