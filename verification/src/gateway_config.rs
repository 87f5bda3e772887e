//! Gateway configuration with its documented defaults, and the metrics
//! exposition line the admin endpoint serves.

use vstd::prelude::*;

verus! {

use crate::text::{u64_to_dec, dec_rep};

/// Identity and listen settings of this gateway.
pub struct GatewaySettings {
    pub id: String,
    pub zone: String,
    pub listen_addr: String,
    pub listen_port: u16,
}

/// How to reach the backend.
pub struct BackendSettings {
    pub url: String,
    pub reconnect_interval_secs: u64,
}

/// Transport security settings.
pub struct TlsSettings {
    pub enabled: bool,
    pub cert_file: Option<String>,
    pub key_file: Option<String>,
    pub ca_file: Option<String>,
    pub verify_clients: bool,
}

/// Everything the gateway reads at startup.
pub struct GatewayConfig {
    pub gateway: GatewaySettings,
    pub backend: BackendSettings,
    pub tls: TlsSettings,
}

pub fn default_listen_port() -> (r: u16)
    ensures
        r == 8443,
{
    8443
}

pub fn default_reconnect_interval() -> (r: u64)
    ensures
        r == 5,
{
    5
}

pub fn default_verify_clients() -> (r: bool)
    ensures
        r,
{
    true
}

impl Default for GatewayConfig {
    /// The configuration a gateway runs with when no file overrides it.
    fn default() -> (r: Self)
        ensures
            r.gateway.id@ == "gateway-1"@,
            r.gateway.zone@ == "default"@,
            r.gateway.listen_addr@ == "0.0.0.0"@,
            r.gateway.listen_port == 8443,
            r.backend.url@ == "wss://backend.opsmap.local:443/gateway"@,
            r.backend.reconnect_interval_secs == 5,
            r.tls.enabled,
            r.tls.cert_file matches Some(f) && f@ == "/etc/opsmap/certs/gateway.crt"@,
            r.tls.key_file matches Some(f) && f@ == "/etc/opsmap/certs/gateway.key"@,
            r.tls.ca_file matches Some(f) && f@ == "/etc/opsmap/certs/ca.crt"@,
            r.tls.verify_clients,
    {
        GatewayConfig {
            gateway: GatewaySettings {
                id: String::from_str("gateway-1"),
                zone: String::from_str("default"),
                listen_addr: String::from_str("0.0.0.0"),
                listen_port: 8443,
            },
            backend: BackendSettings {
                url: String::from_str("wss://backend.opsmap.local:443/gateway"),
                reconnect_interval_secs: 5,
            },
            tls: TlsSettings {
                enabled: true,
                cert_file: Some(String::from_str("/etc/opsmap/certs/gateway.crt")),
                key_file: Some(String::from_str("/etc/opsmap/certs/gateway.key")),
                ca_file: Some(String::from_str("/etc/opsmap/certs/ca.crt")),
                verify_clients: true,
            },
        }
    }
}

/// What a gateway announces to the backend when its bridge connects: its
/// identity, zone, build version, and the agents currently live.
pub struct RegisterPayload {
    pub gateway_id: String,
    pub zone: String,
    pub version: String,
    pub agents: Vec<crate::registry::AgentInfo>,
}

/// The Prometheus exposition for the connected-agent gauge.
pub open spec fn metrics_text_of(count: u64) -> Seq<char> {
    "# HELP opsmap_gateway_connected_agents Number of connected agents\n# TYPE opsmap_gateway_connected_agents gauge\nopsmap_gateway_connected_agents "@
        + dec_rep(count as nat) + "\n"@
}

/// Render the metrics exposition for this many connected agents.
pub fn metrics_text(count: u64) -> (r: String)
    ensures
        r@ == metrics_text_of(count),
{
    let mut out = String::from_str(
        "# HELP opsmap_gateway_connected_agents Number of connected agents\n# TYPE opsmap_gateway_connected_agents gauge\nopsmap_gateway_connected_agents ",
    );
    let d = u64_to_dec(count);
    out.append(d.as_str());
    out.append("\n");
    out
}

} // verus!
