use nvlink_partitioning::config::{nmxc_mtls_config_from_nvlink, NvLinkConfig};
use nvlink_partitioning::iteration::{endpoint_for_chassis, group_hosts_by_chassis, shortened_interval, NvlinkNmxcEndpoint};
use nvlink_partitioning::keyed::KeyedVec;
use nvlink_partitioning::model::{DpuSnapshot, HostSnapshot, MachineNvLinkInfo, ManagedHostSnapshot};
use nvlink_partitioning::nmxc::{
    client_identity_paths, connection_uses_tls, tls_domain_name, Endpoint, NmxcClientPool, NmxcClientPoolBuilder,
    NmxcError, NmxcTlsConfig,
};
use nvlink_partitioning::model::{PartitionId, PartitionInfo};
use nvlink_partitioning::monitor::nmx_c_partition_id_string;
use nvlink_partitioning::text::{parse_u32, text_contains, trim, uuid_string};
use nvlink_partitioning::time::Duration;

#[test]
fn number_and_uuid_text() {
    let p = |id: u32| PartitionInfo { partition_id: Some(PartitionId { partition_id: id }), name: String::new(), gpu_uid_list: vec![] };
    assert_eq!(nmx_c_partition_id_string(&p(0)), "0");
    assert_eq!(nmx_c_partition_id_string(&p(4096)), "4096");
    assert_eq!(nmx_c_partition_id_string(&p(u32::MAX)), "4294967295");
    assert_eq!(uuid_string(0), "00000000-0000-0000-0000-000000000000");
    assert_eq!(
        uuid_string(0xffeeddcc_bbaa_9988_7766_554433221100),
        "ffeeddcc-bbaa-9988-7766-554433221100"
    );
}

#[test]
fn parse_round_trips_decimal_text() {
    assert_eq!(parse_u32("32766"), Some(32766));
    assert_eq!(parse_u32("+7"), Some(7));
    assert_eq!(parse_u32("4294967295"), Some(u32::MAX));
    assert_eq!(parse_u32("4294967296"), None);
    assert_eq!(parse_u32(""), None);
    assert_eq!(parse_u32("1a"), None);
    let p = PartitionInfo { partition_id: Some(PartitionId { partition_id: 123456 }), name: String::new(), gpu_uid_list: vec![] };
    assert_eq!(parse_u32(&nmx_c_partition_id_string(&p)), Some(123456));
}

#[test]
fn trimming_and_searching() {
    assert_eq!(trim("  a b \t\n"), "a b");
    assert_eq!(trim("   "), "");
    assert!(text_contains("NvlDefaultPartition", "Default"));
    assert!(!text_contains("default", "Default"));
    assert!(text_contains("abc", ""));
}

#[test]
fn durations() {
    assert_eq!(Duration::from_millis(1500).as_secs(), 1);
    assert_eq!(Duration::from_millis(1500).subsec_nanos(), 500_000_000);
    assert_eq!(Duration::from_secs(1).saturating_add(Duration::from_millis(999)), Duration::from_parts(1, 999_000_000));
    assert_eq!(Duration::max_value().saturating_add(Duration::from_secs(1)), Duration::max_value());
    assert_eq!(shortened_interval(3), Some(Duration::from_secs(1)));
    assert_eq!(shortened_interval(0), None);
}

#[test]
fn default_config_and_interval() {
    let c = NvLinkConfig::default();
    assert!(!c.enabled);
    assert!(!c.allow_insecure);
    assert_eq!(c.monitor_run_interval, Duration::from_secs(60));
    assert_eq!(NvLinkConfig::default_monitor_run_interval(), Duration::from_secs(60));
    assert!(nmxc_mtls_config_from_nvlink(&c).is_none());
}

#[test]
fn mtls_needs_certificate_and_key() {
    let mut c = NvLinkConfig::default();
    c.nmx_c_tls_client_cert_path = Some("/c".to_string());
    assert!(nmxc_mtls_config_from_nvlink(&c).is_none());
    c.nmx_c_tls_client_key_path = Some("/k".to_string());
    c.nmx_c_tls_authority = Some("nmx".to_string());
    let t = nmxc_mtls_config_from_nvlink(&c).unwrap();
    assert_eq!(t.client_cert_path.as_deref(), Some("/c"));
    assert_eq!(t.client_key_path.as_deref(), Some("/k"));
    assert_eq!(t.ca_cert_path, None);
    assert_eq!(t.authority.as_deref(), Some("nmx"));
}

#[test]
fn endpoints_parse_uris() {
    let e = Endpoint::new("https://host:50051").ok().unwrap();
    assert_eq!(e.uri, "https://host:50051".parse::<http::Uri>().unwrap());
    match Endpoint::new("http://bad host") {
        Err(NmxcError::InvalidEndpoint(m)) => assert!(m.starts_with("http://bad host: ")),
        _ => panic!("expected invalid endpoint"),
    }
}

#[test]
fn pool_builder_settings() {
    let b = NmxcClientPool::builder();
    assert_eq!(b.timeout, Duration::from_secs(30));
    assert!(b.tls.is_none());
    let d = NmxcClientPoolBuilder::default();
    assert_eq!(d.timeout, Duration::from_secs(30));
    let tls = NmxcTlsConfig { ca_cert_path: Some("/ca".to_string()), client_cert_path: None, client_key_path: None, authority: None };
    let pool = NmxcClientPool::builder().timeout(Duration::from_secs(5)).tls(tls).build().ok().unwrap();
    assert_eq!(pool.connect_timeout(), Duration::from_secs(5));
    assert_eq!(pool.tls_settings().unwrap().ca_cert_path.as_deref(), Some("/ca"));
    assert!(matches!(NmxcError::invalid_response("x".to_string()), NmxcError::Status(_)));
}

#[test]
fn tls_decisions() {
    assert!(connection_uses_tls(Some("https")));
    assert!(connection_uses_tls(Some("HTTPS")));
    assert!(!connection_uses_tls(Some("http")));
    assert!(!connection_uses_tls(None));
    assert!(matches!(client_identity_paths(&None, &None), Ok(None)));
    match client_identity_paths(&Some("/c".to_string()), &None) {
        Err(NmxcError::InvalidEndpoint(m)) => {
            assert_eq!(m, "NMX-C TLS client cert path and key path must both be set for mTLS")
        }
        _ => panic!("expected invalid endpoint"),
    }
    match client_identity_paths(&Some("/c".to_string()), &Some("/k".to_string())) {
        Ok(Some((c, k))) => assert_eq!((c.as_str(), k.as_str()), ("/c", "/k")),
        _ => panic!("expected both paths"),
    }
    assert_eq!(tls_domain_name(&Some("auth".to_string()), Some("host")), Some("auth".to_string()));
    assert_eq!(tls_domain_name(&None, Some("host")), Some("host".to_string()));
    assert_eq!(tls_domain_name(&Some(String::new()), Some("host")), None);
    assert_eq!(tls_domain_name(&None, None), None);
}

fn mh(id: u128, serial: Option<&str>) -> ManagedHostSnapshot {
    ManagedHostSnapshot {
        host_snapshot: HostSnapshot {
            id,
            nvlink_info: serial.map(|s| MachineNvLinkInfo { domain_uuid: 1, chassis_serial: s.to_string(), gpus: vec![] }),
        },
        instance: None,
        dpu_snapshots: vec![DpuSnapshot { use_admin_network: Some(false) }],
    }
}

#[test]
fn hosts_are_grouped_by_trimmed_chassis_serial() {
    let hosts = vec![mh(1, Some(" A ")), mh(2, Some("B")), mh(3, None), mh(4, Some("A")), mh(5, Some("  "))];
    let groups = group_hosts_by_chassis(&hosts);
    assert_eq!(groups.len(), 2);
    assert_eq!(groups[0].chassis_serial, "A");
    assert_eq!(groups[0].hosts, vec![0, 3]);
    assert_eq!(groups[1].chassis_serial, "B");
    assert_eq!(groups[1].hosts, vec![1]);
    let rows = vec![NvlinkNmxcEndpoint { chassis_serial: "A".to_string(), endpoint: "http://a".to_string() }];
    assert_eq!(endpoint_for_chassis(&rows, "A"), Some("http://a".to_string()));
    assert_eq!(endpoint_for_chassis(&rows, "B"), None);
}

#[test]
fn keyed_vec_keeps_insertion_order() {
    let mut m: KeyedVec<u64, u64> = KeyedVec::new();
    m.insert(5, 50);
    m.insert(3, 30);
    m.insert(5, 55);
    assert_eq!(m.len(), 2);
    assert_eq!(m.key_at(0), 5);
    assert_eq!(*m.value_at(0), 55);
    assert_eq!(m.get(&3), Some(&30));
    assert_eq!(m.get(&4), None);
    assert_eq!(m.position(&3), Some(1));
}
