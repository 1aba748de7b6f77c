//! NvLink partitioning settings.

use vstd::prelude::*;
use crate::nmxc::{NmxcTlsConfig, TlsView, copy_opt_string, opt_text};
use crate::time::Duration;

verus! {

/// Settings of the NvLink partition monitor.
#[derive(Debug)]
pub struct NvLinkConfig {
    /// Enables NvLink partitioning.
    pub enabled: bool,
    /// How often the monitor runs; one minute unless configured.
    pub monitor_run_interval: Duration,
    /// PEM file: extra CA bundle for verifying the NMX-C server over HTTPS.
    pub nmx_c_tls_ca_cert_path: Option<String>,
    /// PEM file: client certificate for mutual TLS to NMX-C (pair with the key).
    pub nmx_c_tls_client_cert_path: Option<String>,
    /// PEM file: client private key for mutual TLS to NMX-C (pair with the certificate).
    pub nmx_c_tls_client_key_path: Option<String>,
    /// TLS server name for NMX-C HTTPS; the endpoint's host when unset.
    pub nmx_c_tls_authority: Option<String>,
    /// Set when NMX-M does not meet the security requirements.
    pub allow_insecure: bool,
}

impl NvLinkConfig {
    /// One minute.
    pub fn default_monitor_run_interval() -> (d: Duration)
        ensures
            d@ == 60_000_000_000,
    {
        Duration::from_secs(60)
    }
}

impl Default for NvLinkConfig {
    /// Disabled, one-minute interval, no TLS settings, secure.
    fn default() -> (c: NvLinkConfig)
        ensures
            !c.enabled,
            c.monitor_run_interval@ == 60_000_000_000,
            c.nmx_c_tls_ca_cert_path is None,
            c.nmx_c_tls_client_cert_path is None,
            c.nmx_c_tls_client_key_path is None,
            c.nmx_c_tls_authority is None,
            !c.allow_insecure,
    {
        NvLinkConfig {
            enabled: false,
            monitor_run_interval: NvLinkConfig::default_monitor_run_interval(),
            nmx_c_tls_ca_cert_path: None,
            nmx_c_tls_client_cert_path: None,
            nmx_c_tls_client_key_path: None,
            nmx_c_tls_authority: None,
            allow_insecure: false,
        }
    }
}

/// The TLS settings for mutual TLS that `cfg` gives, when it names both a
/// client certificate and a client key.
pub open spec fn mtls_settings(cfg: &NvLinkConfig) -> Option<TlsView> {
    if cfg.nmx_c_tls_client_cert_path is None || cfg.nmx_c_tls_client_key_path is None {
        None
    } else {
        Some(
            TlsView {
                ca_cert_path: opt_text(cfg.nmx_c_tls_ca_cert_path),
                client_cert_path: opt_text(cfg.nmx_c_tls_client_cert_path),
                client_key_path: opt_text(cfg.nmx_c_tls_client_key_path),
                authority: opt_text(cfg.nmx_c_tls_authority),
            },
        )
    }
}

/// TLS settings for mutual TLS when both client certificate and key paths are configured.
pub fn nmxc_mtls_config_from_nvlink(cfg: &NvLinkConfig) -> (r: Option<NmxcTlsConfig>)
    ensures
        match r {
            Some(t) => mtls_settings(cfg) == Some(t@),
            None => mtls_settings(cfg) is None,
        },
{
    if cfg.nmx_c_tls_client_cert_path.is_none() || cfg.nmx_c_tls_client_key_path.is_none() {
        return None;
    }
    Some(
        NmxcTlsConfig {
            ca_cert_path: copy_opt_string(&cfg.nmx_c_tls_ca_cert_path),
            client_cert_path: copy_opt_string(&cfg.nmx_c_tls_client_cert_path),
            client_key_path: copy_opt_string(&cfg.nmx_c_tls_client_key_path),
            authority: copy_opt_string(&cfg.nmx_c_tls_authority),
        },
    )
}

} // verus!
