use nvlink_partitioning::config::NvLinkConfig;
use nvlink_partitioning::nmxc::NmxcError;
use nvlink_partitioning::sim::{upgrade_to_https, NmxcSimClient};

#[test]
fn default_simulator_url_is_localhost_9601() {
    let s = NmxcSimClient::simulator().unwrap();
    assert_eq!(NmxcSimClient::SIMULATOR_URL, "http://localhost:9601");
    assert_eq!(
        s.simulator_endpoint()
            .as_ref()
            .expect("simulator endpoint should be set")
            .uri,
        NmxcSimClient::SIMULATOR_URL.parse::<http::Uri>().unwrap(),
    );
}

#[test]
fn with_simulator_url_overrides_endpoint() {
    let s = NmxcSimClient::with_simulator_url("http://127.0.0.1:19999").unwrap();
    assert_eq!(
        s.simulator_endpoint()
            .as_ref()
            .expect("simulator endpoint should be set")
            .uri,
        "http://127.0.0.1:19999".parse::<http::Uri>().unwrap(),
    );
}

#[test]
fn simulator_for_nvlink_with_mtls_uses_https_default() {
    let cfg = NvLinkConfig {
        nmx_c_tls_client_cert_path: Some("/tmp/client.pem".to_string()),
        nmx_c_tls_client_key_path: Some("/tmp/client-key.pem".to_string()),
        ..Default::default()
    };
    let s = NmxcSimClient::simulator_for_nvlink_config(&cfg).unwrap();
    assert_eq!(
        s.simulator_endpoint()
            .as_ref()
            .expect("simulator endpoint should be set")
            .uri,
        NmxcSimClient::SIMULATOR_URL_MTLS.parse::<http::Uri>().unwrap(),
    );
}

#[test]
fn with_simulator_url_for_nvlink_upgrades_http_to_https() {
    let cfg = NvLinkConfig {
        nmx_c_tls_client_cert_path: Some("/c".to_string()),
        nmx_c_tls_client_key_path: Some("/k".to_string()),
        ..Default::default()
    };
    let s = NmxcSimClient::with_simulator_url_for_nvlink("http://127.0.0.1:19999", &cfg).unwrap();
    assert_eq!(
        s.simulator_endpoint()
            .as_ref()
            .expect("simulator endpoint should be set")
            .uri,
        "https://127.0.0.1:19999".parse::<http::Uri>().unwrap(),
    );
}

#[test]
fn simulator_for_nvlink_without_mtls_uses_plain_default() {
    let cfg = NvLinkConfig {
        nmx_c_tls_client_cert_path: Some("/c".to_string()),
        ..Default::default()
    };
    let s = NmxcSimClient::simulator_for_nvlink_config(&cfg).unwrap();
    assert_eq!(
        s.simulator_endpoint().as_ref().unwrap().uri,
        "http://localhost:9601".parse::<http::Uri>().unwrap(),
    );
}

#[test]
fn with_simulator_url_for_nvlink_keeps_url_without_mtls() {
    let cfg = NvLinkConfig::default();
    let s = NmxcSimClient::with_simulator_url_for_nvlink("http://127.0.0.1:19999", &cfg).unwrap();
    assert_eq!(
        s.simulator_endpoint().as_ref().unwrap().uri,
        "http://127.0.0.1:19999".parse::<http::Uri>().unwrap(),
    );
}

#[test]
fn with_simulator_url_rejects_bad_url() {
    assert!(NmxcSimClient::with_simulator_url("http://exa mple.com").is_err());
}

#[test]
fn https_upgrade_only_rewrites_http_scheme() {
    assert_eq!(upgrade_to_https("http://a:1"), "https://a:1");
    assert_eq!(upgrade_to_https("https://a:1"), "https://a:1");
    assert_eq!(upgrade_to_https("grpc://a:1"), "grpc://a:1");
    assert_eq!(upgrade_to_https("http:/"), "http:/");
}

#[test]
fn in_memory_simulator_starts_empty() {
    let s = NmxcSimClient::new();
    assert_eq!(s.get_partition_count(), 0);
    assert!(s.simulator_endpoint().is_none());
    let d = NmxcSimClient::default();
    assert_eq!(d.get_partition_count(), 0);
}

#[test]
fn presets_hold_the_default_gpus() {
    let uids = NmxcSimClient::default_gpu_uids();
    assert_eq!(uids.len(), 12);
    assert_eq!(uids[0], 0xdb488cb17978480);
    assert_eq!(uids[11], 0xfb488cb17978483);

    let u = NmxcSimClient::with_unknown_partition();
    let parts = u.get_partition_info_list(&vec![]);
    assert_eq!(parts.len(), 1);
    assert_eq!(parts[0].partition_id, 12345);
    assert_eq!(parts[0].name, "unknown-partition");
    assert_eq!(parts[0].gpu_uids, uids);
    assert_eq!(parts[0].num_gpus(), 12);

    let d = NmxcSimClient::with_default_partition();
    let parts = d.get_partition_info_list(&vec![]);
    assert_eq!(parts.len(), 1);
    assert_eq!(parts[0].partition_id, 32766);
    assert_eq!(parts[0].name, "default-partition");
    assert_eq!(d.get_partition_id_list(), vec![(32766, 12)]);
}

#[test]
fn create_assigns_ids_and_keeps_requested_ones() {
    let mut s = NmxcSimClient::new();
    let a = s.create_partition(None, "a".to_string(), &vec![Some(1), None, Some(2)]).unwrap();
    let b = s.create_partition(Some(77), "b".to_string(), &vec![Some(3)]).unwrap();
    let c = s.create_partition(None, "c".to_string(), &vec![]).unwrap();
    assert_eq!((a, b, c), (1, 77, 2));
    assert_eq!(s.get_partition_count(), 3);
    let parts = s.get_partition_info_list(&vec![]);
    assert_eq!(parts[0].gpu_uids, vec![1, 2]);
    assert_eq!(parts[1].name, "b");
    assert_eq!(s.get_partition_id_list(), vec![(1, 2), (77, 1), (2, 0)]);
}

#[test]
fn info_list_filters_by_wanted_ids() {
    let mut s = NmxcSimClient::new();
    s.create_partition(Some(5), "x".to_string(), &vec![Some(1)]).unwrap();
    s.create_partition(Some(6), "y".to_string(), &vec![Some(2)]).unwrap();
    s.create_partition(Some(7), "z".to_string(), &vec![Some(3)]).unwrap();
    let parts = s.get_partition_info_list(&vec![7, 5, 99]);
    let ids: Vec<u32> = parts.iter().map(|p| p.partition_id).collect();
    assert_eq!(ids, vec![5, 7]);
}

#[test]
fn creates_fail_once_the_budget_is_spent() {
    let mut s = NmxcSimClient::with_fail_after_n_creates(2);
    assert!(s.create_partition(None, "a".to_string(), &vec![Some(1)]).is_ok());
    assert!(s.create_partition(None, "b".to_string(), &vec![Some(2)]).is_ok());
    let e = s.create_partition(None, "c".to_string(), &vec![Some(3)]).err().unwrap();
    assert_eq!(e.message(), NmxcError::invalid_response("fail after n creates".to_string()).message());
    assert!(e.message().contains("fail after n creates"));
    assert!(s.create_partition(Some(9), "d".to_string(), &vec![Some(4)]).is_err());
    assert_eq!(s.get_partition_count(), 2);
}

#[test]
fn delete_removes_every_partition_with_the_id() {
    let mut s = NmxcSimClient::new();
    s.create_partition(Some(4), "x".to_string(), &vec![]).unwrap();
    s.create_partition(Some(8), "y".to_string(), &vec![]).unwrap();
    s.create_partition(Some(4), "z".to_string(), &vec![]).unwrap();
    assert_eq!(s.delete_partition(Some(4)), 4);
    assert_eq!(s.get_partition_id_list(), vec![(8, 0)]);
    assert_eq!(s.delete_partition(None), 0);
    assert_eq!(s.get_partition_count(), 1);
}

#[test]
fn add_skips_gpus_already_present() {
    let mut s = NmxcSimClient::new();
    s.create_partition(Some(3), "p".to_string(), &vec![Some(10), Some(11)]).unwrap();
    assert_eq!(s.add_gpus_to_partition(Some(3), &vec![11, 12, 12, 13]).unwrap(), 3);
    let parts = s.get_partition_info_list(&vec![3]);
    assert_eq!(parts[0].gpu_uids, vec![10, 11, 12, 13]);
}

#[test]
fn add_and_remove_refuse_unknown_partitions() {
    let mut s = NmxcSimClient::with_default_partition();
    assert!(s.add_gpus_to_partition(None, &vec![1]).is_err());
    assert!(s.add_gpus_to_partition(Some(1), &vec![1]).is_err());
    assert!(s.remove_gpus_from_partition(None, &vec![1]).is_err());
    assert!(s.remove_gpus_from_partition(Some(1), &vec![1]).is_err());
    assert_eq!(s.get_partition_info_list(&vec![])[0].gpu_uids, NmxcSimClient::default_gpu_uids());
}

#[test]
fn remove_undoes_add_of_new_gpus() {
    let mut s = NmxcSimClient::new();
    s.create_partition(Some(3), "p".to_string(), &vec![Some(10), Some(11)]).unwrap();
    s.add_gpus_to_partition(Some(3), &vec![20, 21]).unwrap();
    assert_eq!(s.get_partition_info_list(&vec![])[0].gpu_uids, vec![10, 11, 20, 21]);
    s.remove_gpus_from_partition(Some(3), &vec![20, 21]).unwrap();
    assert_eq!(s.get_partition_info_list(&vec![])[0].gpu_uids, vec![10, 11]);
}

#[test]
fn remove_keeps_other_gpus_in_order() {
    let mut s = NmxcSimClient::with_unknown_partition();
    let uids = NmxcSimClient::default_gpu_uids();
    s.remove_gpus_from_partition(Some(12345), &vec![uids[0], uids[5], 42]).unwrap();
    let left = &s.get_partition_info_list(&vec![])[0].gpu_uids;
    assert_eq!(left.len(), 10);
    assert!(!left.contains(&uids[0]));
    assert!(!left.contains(&uids[5]));
    assert_eq!(left[0], uids[1]);
}

#[test]
fn hello_reports_the_simulated_domain() {
    assert_eq!(NmxcSimClient::hello_domain_uuid(), "ffffffff-ffff-ffff-ffff-ffffffffffff");
}

#[test]
fn clients_go_to_the_grpc_simulator_only_when_proxying() {
    assert!(NmxcSimClient::new().grpc_target().is_none());
    assert!(NmxcSimClient::with_default_partition().grpc_target().is_none());
    let s = NmxcSimClient::simulator().unwrap();
    let (pool, endpoint) = s.grpc_target().unwrap();
    assert!(pool.tls_settings().is_none());
    assert_eq!(endpoint.uri, "http://localhost:9601".parse::<http::Uri>().unwrap());
}

#[test]
fn resource_ids_name_gpus_by_uid() {
    assert_eq!(NmxcSimClient::uids_from_resource_ids(&vec![Some(4), None, Some(2), Some(4)]), vec![4, 2, 4]);
    assert!(NmxcSimClient::uids_from_resource_ids(&vec![None]).is_empty());
}
