//! Configuring a load-balanced channel: the service definition, the probe
//! interval, the per-endpoint timeout, and the TLS parameters with their
//! server-name stamp.

use vstd::prelude::*;

use crate::endpoint::ServiceDefinition;

verus! {

/// The probe interval used when none is configured, in milliseconds.
pub const DEFAULT_PROBE_INTERVAL_MS: u64 = 10000;

/// What the core reads of a TLS configuration: the server name presented
/// during the handshake. The cryptographic material itself belongs to the
/// transport.
#[derive(Debug)]
pub struct TlsParams {
    pub server_name: Option<String>,
}

impl TlsParams {
    /// Parameters with no server name set yet.
    pub fn new() -> (r: TlsParams)
        ensures
            r.server_name is None,
    {
        TlsParams { server_name: None }
    }

    /// Set the server name presented during the handshake.
    pub fn with_server_name(self, name: String) -> (r: TlsParams)
        ensures
            r.server_name matches Some(n) && n@ == name@,
    {
        TlsParams { server_name: Some(name) }
    }
}

/// Immutable configuration for one probe task and its channel.
pub struct ProbeConfig {
    pub service_definition: ServiceDefinition,
    pub probe_interval_ms: u64,
    pub endpoint_timeout_ms: Option<u64>,
    pub tls: Option<TlsParams>,
}

/// Builder to configure and create a load-balanced channel.
pub struct LoadBalancedChannelBuilder {
    service_definition: ServiceDefinition,
    probe_interval_ms: Option<u64>,
    timeout_ms: Option<u64>,
    tls: Option<TlsParams>,
}

impl LoadBalancedChannelBuilder {
    pub closed spec fn hostname(&self) -> Seq<char> {
        self.service_definition.hostname@
    }

    pub closed spec fn port(&self) -> u16 {
        self.service_definition.port
    }

    pub closed spec fn probe_interval(&self) -> Option<u64> {
        self.probe_interval_ms
    }

    pub closed spec fn endpoint_timeout(&self) -> Option<u64> {
        self.timeout_ms
    }

    pub closed spec fn tls_server_name(&self) -> Option<Seq<char>> {
        match self.tls {
            Option::Some(t) => match t.server_name {
                Option::Some(n) => Option::Some(n@),
                Option::None => Option::None,
            },
            Option::None => Option::None,
        }
    }

    pub closed spec fn has_tls(&self) -> bool {
        self.tls is Some
    }

    /// Begin configuring a channel for the given service; nothing else is
    /// set yet.
    pub fn new(service_definition: ServiceDefinition) -> (r: LoadBalancedChannelBuilder)
        ensures
            r.hostname() == service_definition.hostname@,
            r.port() == service_definition.port,
            r.probe_interval() is None,
            r.endpoint_timeout() is None,
            !r.has_tls(),
    {
        LoadBalancedChannelBuilder {
            service_definition,
            probe_interval_ms: None,
            timeout_ms: None,
            tls: None,
        }
    }

    /// Set how often the probe resolves the service for endpoint changes.
    pub fn dns_probe_interval(self, interval_ms: u64) -> (r: LoadBalancedChannelBuilder)
        ensures
            r.probe_interval() == Some(interval_ms),
            r.hostname() == self.hostname(),
            r.port() == self.port(),
            r.endpoint_timeout() == self.endpoint_timeout(),
            r.tls_server_name() == self.tls_server_name(),
            r.has_tls() == self.has_tls(),
    {
        LoadBalancedChannelBuilder { probe_interval_ms: Some(interval_ms), ..self }
    }

    /// Set a timeout that applies to every new endpoint's connection.
    pub fn timeout(self, timeout_ms: u64) -> (r: LoadBalancedChannelBuilder)
        ensures
            r.endpoint_timeout() == Some(timeout_ms),
            r.hostname() == self.hostname(),
            r.port() == self.port(),
            r.probe_interval() == self.probe_interval(),
            r.tls_server_name() == self.tls_server_name(),
            r.has_tls() == self.has_tls(),
    {
        LoadBalancedChannelBuilder { timeout_ms: Some(timeout_ms), ..self }
    }

    /// Configure the channel to use TLS. Because endpoints are addressed
    /// by IP, the server name is stamped with the logical hostname of the
    /// service definition — whatever name the given parameters carried —
    /// so that certificate validation still sees the hostname.
    pub fn with_tls(self, tls: TlsParams) -> (r: LoadBalancedChannelBuilder)
        ensures
            r.has_tls(),
            r.tls_server_name() == Some(self.hostname()),
            r.hostname() == self.hostname(),
            r.port() == self.port(),
            r.probe_interval() == self.probe_interval(),
            r.endpoint_timeout() == self.endpoint_timeout(),
    {
        let name = self.service_definition.hostname.clone();
        let stamped = tls.with_server_name(name);
        LoadBalancedChannelBuilder { tls: Some(stamped), ..self }
    }

    /// The probe configuration this builder describes: the configured
    /// interval or the default, the optional endpoint timeout, and the
    /// stamped TLS parameters.
    pub fn probe_config(self) -> (r: ProbeConfig)
        ensures
            r.service_definition.hostname@ == self.hostname(),
            r.service_definition.port == self.port(),
            self.probe_interval() is Some ==> Some(r.probe_interval_ms) == self.probe_interval(),
            self.probe_interval() is None ==> r.probe_interval_ms == DEFAULT_PROBE_INTERVAL_MS,
            r.endpoint_timeout_ms == self.endpoint_timeout(),
            (match r.tls {
                Option::Some(t) => match t.server_name {
                    Option::Some(n) => Option::Some(n@),
                    Option::None => Option::<Seq<char>>::None,
                },
                Option::None => Option::None,
            }) == self.tls_server_name(),
    {
        let probe_interval_ms = match self.probe_interval_ms {
            Some(ms) => ms,
            None => DEFAULT_PROBE_INTERVAL_MS,
        };
        ProbeConfig {
            service_definition: self.service_definition,
            probe_interval_ms,
            endpoint_timeout_ms: self.timeout_ms,
            tls: self.tls,
        }
    }
}

} // verus!
