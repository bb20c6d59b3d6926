//! Verified core of a transparent reverse proxy for an Anthropic-style
//! Messages API.
//!
//! - [`json`]: documents as plain values, their accessors and compact encoder.
//! - [`rewrite`]: `model` override and `max_tokens` default on request bodies.
//! - [`types`], [`validation`]: the typed reading of a request and its report.
//! - [`sse`]: framing of buffered Server-Sent-Events bodies.
//! - [`attributes`], [`request_attrs`], [`shadow_attrs`]: OpenInference span
//!   attributes of requests and responses.
//! - [`usage`]: token and tool-call accounting of a response.
//! - [`proxy`]: header policy, status mapping, routing and the response tap.
//! - [`convert`]: conversion to OpenAI-format chat requests.
//! - [`mode`], [`stats`], [`config`], [`correlation`], [`telemetry`]: runtime
//!   mode cell, counters, configuration, identifiers and span output.

pub mod attributes;
pub mod config;
pub mod convert;
pub mod correlation;
pub mod json;
pub mod mode;
pub mod proxy;
pub mod request_attrs;
pub mod rewrite;
pub mod shadow_attrs;
pub mod splice;
pub mod sse;
pub mod stats;
pub mod telemetry;
pub mod types;
pub mod usage;
pub mod validation;
