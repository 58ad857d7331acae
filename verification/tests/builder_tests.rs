use ginepro::builder::{LoadBalancedChannelBuilder, TlsParams, DEFAULT_PROBE_INTERVAL_MS};
use ginepro::endpoint::ServiceDefinition;

#[test]
fn the_probe_interval_defaults_to_ten_seconds() {
    let sd = ServiceDefinition::new("svc.example.net".to_string(), 5000);
    let config = LoadBalancedChannelBuilder::new(sd).probe_config();
    assert_eq!(DEFAULT_PROBE_INTERVAL_MS, 10000);
    assert_eq!(config.probe_interval_ms, 10000);
    assert_eq!(config.endpoint_timeout_ms, None);
    assert!(config.tls.is_none());
    assert_eq!(config.service_definition.hostname, "svc.example.net");
    assert_eq!(config.service_definition.port, 5000);
}

#[test]
fn configured_interval_and_timeout_are_kept() {
    let sd = ServiceDefinition::new("svc.example.net".to_string(), 5000);
    let config = LoadBalancedChannelBuilder::new(sd)
        .dns_probe_interval(2500)
        .timeout(750)
        .probe_config();
    assert_eq!(config.probe_interval_ms, 2500);
    assert_eq!(config.endpoint_timeout_ms, Some(750));
}

#[test]
fn tls_server_name_is_stamped_with_the_hostname() {
    let sd = ServiceDefinition::new("svc.example.net".to_string(), 5000);
    let config = LoadBalancedChannelBuilder::new(sd)
        .with_tls(TlsParams::new())
        .probe_config();
    let tls = config.tls.expect("tls was configured");
    // Endpoints resolve to IPs such as 10.0.0.1, so the handshake presents
    // the logical hostname instead.
    assert_eq!(tls.server_name.as_deref(), Some("svc.example.net"));
}

#[test]
fn tls_stamp_replaces_a_server_name_already_set() {
    let sd = ServiceDefinition::new("svc.example.net".to_string(), 5000);
    let supplied = TlsParams::new().with_server_name("other.example.org".to_string());
    let config = LoadBalancedChannelBuilder::new(sd)
        .with_tls(supplied)
        .probe_config();
    let tls = config.tls.expect("tls was configured");
    assert_eq!(tls.server_name.as_deref(), Some("svc.example.net"));
}
