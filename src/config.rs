//! Configuration values and their defaults.

use vstd::prelude::*;

verus! {

/// Mode the proxy starts in when none is configured.
pub fn default_mode() -> (r: String)
    ensures
        r@ == "target"@,
{
    "target".to_string()
}

pub fn default_listen_address() -> (r: String)
    ensures
        r@ == "0.0.0.0:3080"@,
{
    "0.0.0.0:3080".to_string()
}

pub fn default_passthrough_url() -> (r: String)
    ensures
        r@ == "https://api.anthropic.com"@,
{
    "https://api.anthropic.com".to_string()
}

pub fn default_true() -> (r: bool)
    ensures
        r,
{
    true
}

/// Per-request upstream timeout, in seconds.
pub fn default_timeout() -> (r: u64)
    ensures
        r == 300,
{
    300
}

/// Capacity of the compare semaphore.
pub fn default_max_concurrent() -> (r: usize)
    ensures
        r == 50,
{
    50
}

pub fn default_service_name() -> (r: String)
    ensures
        r@ == "shadow-proxy"@,
{
    "shadow-proxy".to_string()
}

pub fn default_log_level() -> (r: String)
    ensures
        r@ == "info"@,
{
    "info".to_string()
}

/// Server listen configuration.
#[derive(Debug, Clone)]
pub struct ServerConfig {
    pub listen_address: String,
}

impl Default for ServerConfig {
    fn default() -> (r: ServerConfig)
        ensures
            r.listen_address@ == "0.0.0.0:3080"@,
    {
        ServerConfig { listen_address: default_listen_address() }
    }
}

/// Passthrough upstream configuration, used in compare and anthropic-only
/// modes.
#[derive(Debug, Clone)]
pub struct PassthroughConfig {
    pub url: String,
    pub passthrough_auth: bool,
    pub timeout_secs: u64,
}

impl Default for PassthroughConfig {
    fn default() -> (r: PassthroughConfig)
        ensures
            r.url@ == "https://api.anthropic.com"@,
            r.passthrough_auth,
            r.timeout_secs == 300,
    {
        PassthroughConfig {
            url: default_passthrough_url(),
            passthrough_auth: default_true(),
            timeout_secs: default_timeout(),
        }
    }
}

/// OTLP transport protocol.
#[derive(Debug, Clone, Copy, PartialEq, Eq, Structural)]
pub enum OtlpProtocol {
    Grpc,
    Http,
}

impl Default for OtlpProtocol {
    fn default() -> (r: OtlpProtocol)
        ensures
            r == OtlpProtocol::Grpc,
    {
        OtlpProtocol::Grpc
    }
}

/// Configuration of the tracing subsystem. Without an OTLP endpoint only
/// local logging is set up.
#[derive(Debug, Clone)]
pub struct TracingConfig {
    pub service_name: String,
    pub otlp_endpoint: Option<String>,
    pub protocol: OtlpProtocol,
    pub log_level: String,
}

impl Default for TracingConfig {
    fn default() -> (r: TracingConfig)
        ensures
            r.service_name@ == "shadow-proxy"@,
            r.otlp_endpoint is None,
            r.protocol == OtlpProtocol::Grpc,
            r.log_level@ == "info"@,
    {
        TracingConfig {
            service_name: default_service_name(),
            otlp_endpoint: None,
            protocol: OtlpProtocol::Grpc,
            log_level: default_log_level(),
        }
    }
}

pub fn default_upstream_base_url() -> (r: String)
    ensures
        r@ == "https://api.anthropic.com"@,
{
    "https://api.anthropic.com".to_string()
}

pub fn default_primary_timeout() -> (r: u64)
    ensures
        r == 300,
{
    300
}

/// Chat completions endpoint of an OpenAI-format compare deployment.
pub fn default_litellm_url() -> (r: String)
    ensures
        r@ == "http://localhost:4000/v1/chat/completions"@,
{
    "http://localhost:4000/v1/chat/completions".to_string()
}

pub fn default_shadow_timeout() -> (r: u64)
    ensures
        r == 120,
{
    120
}

pub fn default_otlp_endpoint() -> (r: String)
    ensures
        r@ == "http://localhost:4317"@,
{
    "http://localhost:4317".to_string()
}

/// Primary upstream configuration of a deployment that mirrors to an
/// OpenAI-format endpoint.
#[derive(Debug, Clone)]
pub struct PrimaryConfig {
    pub upstream_base_url: String,
    pub passthrough_auth: bool,
    pub timeout_secs: u64,
    /// Replaces the `model` of `/v1/messages` bodies where set.
    pub model_override: Option<String>,
}

impl Default for PrimaryConfig {
    fn default() -> (r: PrimaryConfig)
        ensures
            r.upstream_base_url@ == "https://api.anthropic.com"@,
            r.passthrough_auth,
            r.timeout_secs == 300,
            r.model_override is None,
    {
        PrimaryConfig {
            upstream_base_url: default_upstream_base_url(),
            passthrough_auth: default_true(),
            timeout_secs: default_primary_timeout(),
            model_override: None,
        }
    }
}

/// Configuration of the OpenAI-format mirror.
#[derive(Debug, Clone)]
pub struct ShadowConfig {
    pub litellm_url: String,
    pub litellm_api_key: String,
    pub models: Vec<String>,
    pub timeout_secs: u64,
    pub max_concurrent: usize,
}

impl Default for ShadowConfig {
    fn default() -> (r: ShadowConfig)
        ensures
            r.litellm_url@ == "http://localhost:4000/v1/chat/completions"@,
            r.litellm_api_key@.len() == 0,
            r.models@.len() == 0,
            r.timeout_secs == 120,
            r.max_concurrent == 50,
    {
        ShadowConfig {
            litellm_url: default_litellm_url(),
            litellm_api_key: String::new(),
            models: Vec::new(),
            timeout_secs: default_shadow_timeout(),
            max_concurrent: default_max_concurrent(),
        }
    }
}

} // verus!
