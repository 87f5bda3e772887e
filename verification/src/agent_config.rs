//! Agent configuration: the settings both the supervisor loop and the
//! scheduler read, with their documented defaults, and the agent identity
//! rule.

use vstd::prelude::*;

verus! {

use crate::wire::{ConfigUpdate, Label};
use crate::shims::{get_hostname, new_job_id};
use crate::text::str_eq;

/// Identity settings of this agent.
pub struct AgentSettings {
    pub id: String,
    pub hostname: Option<String>,
}

/// How to reach the gateway.
pub struct GatewaySettings {
    pub url: String,
    pub reconnect_interval_secs: u64,
    pub heartbeat_interval_secs: u64,
    pub timeout_secs: u64,
}

/// Transport security settings.
pub struct TlsSettings {
    pub enabled: bool,
    pub cert_file: Option<String>,
    pub key_file: Option<String>,
    pub ca_file: Option<String>,
    pub verify_server: bool,
}

/// Scheduler cadence settings.
pub struct SchedulerSettings {
    pub default_check_interval_secs: u64,
    pub batch_send_interval_secs: u64,
    pub max_concurrent_checks: usize,
}

/// Offline buffer settings.
pub struct BufferSettings {
    pub max_size: usize,
    pub file_path: Option<String>,
}

/// Everything the agent reads at startup.
pub struct AgentConfig {
    pub agent: AgentSettings,
    pub gateway: GatewaySettings,
    pub tls: TlsSettings,
    pub scheduler: SchedulerSettings,
    pub buffer: BufferSettings,
    pub labels: Vec<Label>,
}

pub fn default_agent_id() -> (r: String)
    ensures
        r@ == "auto"@,
{
    String::from_str("auto")
}

pub fn default_reconnect_interval() -> (r: u64)
    ensures
        r == 10,
{
    10
}

pub fn default_heartbeat_interval() -> (r: u64)
    ensures
        r == 30,
{
    30
}

pub fn default_timeout() -> (r: u64)
    ensures
        r == 60,
{
    60
}

pub fn default_tls_enabled() -> (r: bool)
    ensures
        r,
{
    true
}

pub fn default_check_interval() -> (r: u64)
    ensures
        r == 30,
{
    30
}

pub fn default_batch_interval() -> (r: u64)
    ensures
        r == 60,
{
    60
}

pub fn default_max_concurrent() -> (r: usize)
    ensures
        r == 10,
{
    10
}

pub fn default_buffer_size() -> (r: usize)
    ensures
        r == 10000,
{
    10000
}

impl Default for AgentConfig {
    /// The configuration an agent runs with when no file overrides it.
    fn default() -> (r: Self)
        ensures
            r.agent.id@ == "auto"@,
            r.agent.hostname is None,
            r.gateway.url@ == "wss://gateway.opsmap.local:443"@,
            r.gateway.reconnect_interval_secs == 10,
            r.gateway.heartbeat_interval_secs == 30,
            r.gateway.timeout_secs == 60,
            r.tls.enabled,
            r.tls.cert_file matches Some(f) && f@ == "/etc/opsmap/certs/agent.crt"@,
            r.tls.key_file matches Some(f) && f@ == "/etc/opsmap/certs/agent.key"@,
            r.tls.ca_file matches Some(f) && f@ == "/etc/opsmap/certs/ca.crt"@,
            r.tls.verify_server,
            r.scheduler.default_check_interval_secs == 30,
            r.scheduler.batch_send_interval_secs == 60,
            r.scheduler.max_concurrent_checks == 10,
            r.buffer.max_size == 10000,
            r.buffer.file_path matches Some(f) && f@ == "/var/lib/opsmap/buffer.json"@,
            r.labels@.len() == 0,
    {
        AgentConfig {
            agent: AgentSettings { id: String::from_str("auto"), hostname: None },
            gateway: GatewaySettings {
                url: String::from_str("wss://gateway.opsmap.local:443"),
                reconnect_interval_secs: 10,
                heartbeat_interval_secs: 30,
                timeout_secs: 60,
            },
            tls: TlsSettings {
                enabled: true,
                cert_file: Some(String::from_str("/etc/opsmap/certs/agent.crt")),
                key_file: Some(String::from_str("/etc/opsmap/certs/agent.key")),
                ca_file: Some(String::from_str("/etc/opsmap/certs/ca.crt")),
                verify_server: true,
            },
            scheduler: SchedulerSettings {
                default_check_interval_secs: 30,
                batch_send_interval_secs: 60,
                max_concurrent_checks: 10,
            },
            buffer: BufferSettings {
                max_size: 10000,
                file_path: Some(String::from_str("/var/lib/opsmap/buffer.json")),
            },
            labels: Vec::new(),
        }
    }
}

/// Apply a runtime configuration update: only the default check interval
/// is supported; every other field is left to the caller to log and drop.
pub fn apply_config_update(settings: &mut SchedulerSettings, update: &ConfigUpdate)
    ensures
        final(settings).default_check_interval_secs == (match update.check_interval_secs {
            Some(v) => v,
            None => old(settings).default_check_interval_secs,
        }),
        final(settings).batch_send_interval_secs == old(settings).batch_send_interval_secs,
        final(settings).max_concurrent_checks == old(settings).max_concurrent_checks,
{
    match update.check_interval_secs {
        Some(v) => {
            settings.default_check_interval_secs = v;
        },
        None => {},
    }
}

/// An agent id synthesised from a host name and a random suffix.
pub fn compose_agent_id(hostname: &str, suffix: &str) -> (r: String)
    ensures
        r@ == hostname@ + "-"@ + suffix@,
{
    let mut out = String::from_str(hostname);
    out.append("-");
    out.append(suffix);
    out
}

/// Whether this configured id asks for a synthesised one: empty or the
/// literal `auto`.
pub fn id_needs_generation(id: &str) -> (r: bool)
    ensures
        r == (id@.len() == 0 || id@ == "auto"@),
{
    id.unicode_len() == 0 || str_eq(id, "auto")
}

/// A fresh agent id: the host name (or `unknown`) joined by a dash to the
/// first eight characters of a fresh random identifier.
pub fn generate_agent_id() -> (r: String)
    ensures
        exists|h: Seq<char>, s: Seq<char>| s.len() == 8 && r@ == h + "-"@ + s,
{
    let host = match get_hostname() {
        Some(h) => h,
        None => String::from_str("unknown"),
    };
    let fresh = new_job_id();
    let suffix = String::from_str(fresh.as_str().substring_char(0, 8));
    let r = compose_agent_id(host.as_str(), suffix.as_str());
    proof {
        assert(suffix@.len() == 8);
        assert(r@ == host@ + "-"@ + suffix@);
    }
    r
}

} // verus!
