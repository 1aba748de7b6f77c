use nvlink_partitioning::browse::operation_or_unspecified;
use nvlink_partitioning::browse::{
    browse_chassis_serial, browse_endpoint, browse_query, browse_response, compute_node_record, connect_failure,
    domain_uuid_of, find_gpu, gpu_records, gpu_tray_and_slot, listed_node_positions, nmxc_context, BrowseQuery,
    CarbideError, ComputeNodeInfo, GpuInfo, Location, LocationInfo, NmxcBrowseOperation,
};
use nvlink_partitioning::browse::{
    compute_node_gpu_requests, compute_node_info_list_request, compute_node_records, gpu_info_list_request, GpuAttr,
};
use nvlink_partitioning::iteration::NvlinkNmxcEndpoint;
use nvlink_partitioning::browse::map_nmxc_err;
use nvlink_partitioning::nmxc::{context_or_default, default_context, Context, NmxcError};

fn loc(tray: u32, slot: Option<u32>) -> Option<LocationInfo> {
    Some(LocationInfo {
        chassis_serial_number: "CH1".to_string(),
        tray_index: tray,
        location: slot.map(|s| Location { chassis_id: 1, slot_id: s, host_id: 2 }),
    })
}

#[test]
fn contexts_are_empty_by_default() {
    assert_eq!(nmxc_context().context, "");
    assert_eq!(default_context().context, "");
    assert_eq!(context_or_default(None).context, "");
    assert_eq!(context_or_default(Some(Context { context: "c".to_string() })).context, "c");
}

#[test]
fn browse_needs_a_chassis_serial_then_nvlink() {
    match browse_chassis_serial("   ", true) {
        Err(CarbideError::MissingArgument(a)) => assert_eq!(a, "chassis_serial"),
        _ => panic!("expected missing argument"),
    }
    match browse_chassis_serial(" CH1 ", false) {
        Err(CarbideError::Internal(m)) => assert_eq!(m, "nvlink config not enabled"),
        _ => panic!("expected internal"),
    }
    match browse_chassis_serial("", false) {
        Err(CarbideError::MissingArgument(_)) => {}
        _ => panic!("expected missing argument"),
    }
    assert_eq!(browse_chassis_serial("\t CH1 \n", true).ok(), Some("CH1".to_string()));
}

#[test]
fn browse_endpoint_lookup() {
    let row = NvlinkNmxcEndpoint { chassis_serial: "CH1".to_string(), endpoint: "http://nmx:1".to_string() };
    assert_eq!(browse_endpoint("CH1", Some(row)).ok(), Some("http://nmx:1".to_string()));
    match browse_endpoint("CH2", None) {
        Err(CarbideError::NotFoundError { kind, id }) => {
            assert_eq!(kind, "nvlink_nmxc_endpoint");
            assert_eq!(id, "CH2");
        }
        _ => panic!("expected not found"),
    }
    match connect_failure("refused") {
        CarbideError::Internal(m) => assert_eq!(m, "Failed to connect to NMX-C: refused"),
        _ => panic!("expected internal"),
    }
}

#[test]
fn browse_operations_select_queries() {
    match browse_query(NmxcBrowseOperation::Unspecified, 5) {
        Err(CarbideError::InvalidArgument(m)) => {
            assert_eq!(m, "operation must be set to a supported NmxcBrowseOperation")
        }
        _ => panic!("expected invalid argument"),
    }
    match browse_query(NmxcBrowseOperation::GpuInfo, 0) {
        Err(CarbideError::InvalidArgument(m)) => assert_eq!(m, "gpu_uid is required for GPU_INFO operation"),
        _ => panic!("expected invalid argument"),
    }
    assert_eq!(browse_query(NmxcBrowseOperation::GpuInfo, 9).ok(), Some(BrowseQuery::GpuInfo(9)));
    assert_eq!(browse_query(NmxcBrowseOperation::GpuInfoList, 0).ok(), Some(BrowseQuery::GpuInfoList));
    assert_eq!(
        browse_query(NmxcBrowseOperation::ComputeNodeInfoList, 0).ok(),
        Some(BrowseQuery::ComputeNodeInfoList)
    );
}

#[test]
fn gpu_records_take_tray_and_slot() {
    assert_eq!(gpu_tray_and_slot(&None), (0, 0));
    assert_eq!(gpu_tray_and_slot(&loc(3, None)), (3, 0));
    assert_eq!(gpu_tray_and_slot(&loc(3, Some(7))), (3, 7));
    let gpus = vec![
        GpuInfo { gpu_uid: 42, gpu_id: 1, loc: loc(2, Some(4)) },
        GpuInfo { gpu_uid: 43, gpu_id: 2, loc: None },
    ];
    let r = gpu_records(&gpus);
    assert_eq!(r.len(), 2);
    assert_eq!(r[0].id, "42");
    assert_eq!((r[0].device_id, r[0].device_uid, r[0].tray_index, r[0].slot_id), (1, 42, 2, 4));
    assert_eq!((r[1].tray_index, r[1].slot_id), (0, 0));
}

#[test]
fn find_gpu_by_uid() {
    let gpus = vec![
        GpuInfo { gpu_uid: 42, gpu_id: 1, loc: None },
        GpuInfo { gpu_uid: 43, gpu_id: 2, loc: loc(5, Some(6)) },
    ];
    let g = find_gpu(&gpus, 43).ok().unwrap();
    assert_eq!(g.id, "43");
    assert_eq!(g.device_id, 2);
    assert_eq!(g.slot_id, 6);
    match find_gpu(&gpus, 1234) {
        Err(CarbideError::NotFoundError { kind, id }) => {
            assert_eq!(kind, "nmxc_gpu");
            assert_eq!(id, "1234");
        }
        _ => panic!("expected not found"),
    }
}

#[test]
fn compute_nodes_without_location_are_not_listed() {
    let nodes = vec![ComputeNodeInfo { loc: loc(1, None) }, ComputeNodeInfo { loc: None }, ComputeNodeInfo { loc: loc(2, Some(1)) }];
    assert_eq!(listed_node_positions(&nodes), vec![0, 2]);
    let li = LocationInfo { chassis_serial_number: "CH9".to_string(), tray_index: 4, location: None };
    let rec = compute_node_record(&li, "dom", &vec![7, 8]);
    assert_eq!(rec.chassis_serial_number, "CH9");
    assert_eq!(rec.tray_index, 4);
    assert_eq!(rec.domain_uuid, "dom");
    assert_eq!(rec.gpu_ids, vec!["7".to_string(), "8".to_string()]);
    assert_eq!(domain_uuid_of(&None), "");
    assert_eq!(domain_uuid_of(&Some("d-1".to_string())), "d-1");
}

#[test]
fn browse_outcomes_map_to_responses() {
    let ok = browse_response(Ok("{}".to_string())).ok().unwrap();
    assert_eq!((ok.body.as_str(), ok.code), ("{}", 200));
    assert!(ok.headers.is_empty());
    let nf = browse_response(Err(CarbideError::NotFoundError { kind: "nmxc_gpu".to_string(), id: "77".to_string() }))
        .ok()
        .unwrap();
    assert_eq!((nf.body.as_str(), nf.code), ("GPU not found: 77", 404));
    let bad = browse_response(Err(CarbideError::InvalidArgument("nope".to_string()))).ok().unwrap();
    assert_eq!((bad.body.as_str(), bad.code), ("nope", 400));
    assert!(browse_response(Err(CarbideError::NotFoundError { kind: "other".to_string(), id: "1".to_string() })).is_err());
    assert!(browse_response(Err(CarbideError::Internal("x".to_string()))).is_err());
}

#[test]
fn client_errors_become_internal_errors() {
    let e = NmxcError::InvalidEndpoint("x".to_string());
    assert_eq!(e.message(), "Invalid endpoint URL: x");
    match map_nmxc_err(&e) {
        CarbideError::Internal(m) => assert_eq!(m, "Invalid endpoint URL: x"),
        _ => panic!("expected internal"),
    }
    assert_eq!(NmxcError::Uninitialized.message(), "Connection not initialized");
    let s = NmxcError::invalid_response("boom".to_string());
    assert!(s.message().starts_with("gRPC status: "));
    assert!(s.message().contains("boom"));
    match map_nmxc_err(&s) {
        CarbideError::Internal(m) => {
            assert!(m.contains("boom"));
            assert!(!m.starts_with("gRPC status: "));
        }
        _ => panic!("expected internal"),
    }
}

#[test]
fn gpu_list_query_asks_for_every_gpu() {
    let q = gpu_info_list_request();
    assert_eq!(q.context.map(|c| c.context), Some(String::new()));
    assert_eq!(q.attr, GpuAttr::All);
    assert_eq!(q.num_gpus, 0);
    assert!(q.loc.is_none());
    assert!(q.partition_id.is_none());
    assert_eq!(q.gateway_id, "carbide");
    assert_eq!(q.gpu_health, 0);
    let n = compute_node_info_list_request();
    assert_eq!(n.context.map(|c| c.context), Some(String::new()));
    assert!(n.loc_list.is_empty());
    assert_eq!(n.gateway_id, "carbide");
}

#[test]
fn one_gpu_query_per_located_node() {
    let nodes = vec![
        ComputeNodeInfo { loc: loc(1, Some(5)) },
        ComputeNodeInfo { loc: None },
        ComputeNodeInfo { loc: loc(2, None) },
        ComputeNodeInfo { loc: loc(3, Some(6)) },
    ];
    let queries = compute_node_gpu_requests(&nodes);
    assert_eq!(queries.len(), 3);
    let first = queries[0].as_ref().unwrap();
    assert_eq!(first.attr, GpuAttr::Location);
    assert_eq!(first.loc.as_ref().map(|l| l.slot_id), Some(5));
    assert_eq!(first.gateway_id, "carbide");
    assert!(queries[1].is_none());
    assert_eq!(queries[2].as_ref().unwrap().loc.as_ref().map(|l| l.slot_id), Some(6));

    let records = compute_node_records(&nodes, "dom", &vec![vec![10, 11], vec![99], vec![12]]);
    assert_eq!(records.len(), 3);
    assert_eq!(records[0].tray_index, 1);
    assert_eq!(records[0].gpu_ids, vec!["10".to_string(), "11".to_string()]);
    assert_eq!(records[1].tray_index, 2);
    assert!(records[1].gpu_ids.is_empty());
    assert_eq!(records[2].gpu_ids, vec!["12".to_string()]);
    assert!(records.iter().all(|r| r.domain_uuid == "dom"));
}

#[test]
fn unknown_operation_counts_as_unspecified() {
    assert_eq!(operation_or_unspecified(None), NmxcBrowseOperation::Unspecified);
    assert_eq!(operation_or_unspecified(Some(NmxcBrowseOperation::GpuInfo)), NmxcBrowseOperation::GpuInfo);
}
