use cc_proxy::config::{
    default_listen_address, default_log_level, default_max_concurrent, default_mode,
    default_passthrough_url, default_service_name, default_timeout, default_true, OtlpProtocol,
    PassthroughConfig, ServerConfig, TracingConfig,
};

#[test]
fn defaults() {
    assert_eq!(default_mode(), "target");
    assert_eq!(default_listen_address(), "0.0.0.0:3080");
    assert_eq!(default_passthrough_url(), "https://api.anthropic.com");
    assert!(default_true());
    assert_eq!(default_timeout(), 300);
    assert_eq!(default_max_concurrent(), 50);
    assert_eq!(default_service_name(), "shadow-proxy");
    assert_eq!(default_log_level(), "info");
    let t = TracingConfig::default();
    assert_eq!(t.protocol, OtlpProtocol::Grpc);
    assert!(t.otlp_endpoint.is_none());
    assert_eq!(ServerConfig::default().listen_address, "0.0.0.0:3080");
    assert_eq!(PassthroughConfig::default().timeout_secs, 300);
}

use cc_proxy::config::{
    default_litellm_url, default_otlp_endpoint, default_primary_timeout, default_shadow_timeout,
    default_upstream_base_url, PrimaryConfig, ShadowConfig,
};

#[test]
fn mirror_deployment_defaults() {
    assert_eq!(default_upstream_base_url(), "https://api.anthropic.com");
    assert_eq!(default_primary_timeout(), 300);
    assert_eq!(default_litellm_url(), "http://localhost:4000/v1/chat/completions");
    assert_eq!(default_shadow_timeout(), 120);
    assert_eq!(default_otlp_endpoint(), "http://localhost:4317");
    let p = PrimaryConfig::default();
    assert!(p.model_override.is_none());
    let s = ShadowConfig::default();
    assert_eq!(s.max_concurrent, 50);
    assert!(s.models.is_empty());
}
