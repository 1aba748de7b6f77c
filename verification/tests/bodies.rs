use nvlink_partitioning::bodies::{compute_node_info_list_body, gpu_info_body, gpu_info_list_body};
use nvlink_partitioning::browse::{ComputeNodeRecord, GpuRecord};

fn rec(uid: u64) -> GpuRecord {
    GpuRecord { id: uid.to_string(), device_id: 1, device_uid: uid, tray_index: 2, slot_id: 3 }
}

#[test]
fn gpu_body_is_compact_json_with_sorted_keys() {
    assert_eq!(
        gpu_info_body(&rec(77)),
        r#"{"DeviceID":1,"DeviceUID":77,"ID":"77","LocationInfo":{"SlotID":3,"TrayIndex":2}}"#
    );
    let negative = GpuRecord { id: "x".to_string(), device_id: -5, device_uid: 0, tray_index: 0, slot_id: 0 };
    assert_eq!(
        gpu_info_body(&negative),
        r#"{"DeviceID":-5,"DeviceUID":0,"ID":"x","LocationInfo":{"SlotID":0,"TrayIndex":0}}"#
    );
}

#[test]
fn gpu_list_body_lists_gpus_in_order() {
    assert_eq!(
        gpu_info_list_body("d\"1", &vec![rec(1), rec(2)]),
        r#"{"DomainUUID":"d\"1","Gpus":[{"DeviceID":1,"DeviceUID":1,"LocationInfo":{"SlotID":3,"TrayIndex":2}},{"DeviceID":1,"DeviceUID":2,"LocationInfo":{"SlotID":3,"TrayIndex":2}}]}"#
    );
    assert_eq!(gpu_info_list_body("", &vec![]), r#"{"DomainUUID":"","Gpus":[]}"#);
}

#[test]
fn compute_node_body_matches_serde_json() {
    let nodes = vec![
        ComputeNodeRecord {
            chassis_serial_number: "CH\\1".to_string(),
            tray_index: 4,
            domain_uuid: "dom".to_string(),
            gpu_ids: vec!["10".to_string(), "11".to_string()],
        },
        ComputeNodeRecord { chassis_serial_number: "CH2".to_string(), tray_index: 5, domain_uuid: "dom".to_string(), gpu_ids: vec![] },
    ];
    let body = compute_node_info_list_body(&nodes);
    assert_eq!(
        body,
        r#"[{"DomainUUID":"dom","GpuIDList":["10","11"],"LocationInfo":{"ChassisSerialNumber":"CH\\1","TrayIndex":4}},{"DomainUUID":"dom","GpuIDList":[],"LocationInfo":{"ChassisSerialNumber":"CH2","TrayIndex":5}}]"#
    );
    let parsed: serde_json::Value = serde_json::from_str(&body).unwrap();
    assert_eq!(serde_json::to_string(&parsed).unwrap(), body);
    assert_eq!(compute_node_info_list_body(&vec![]), "[]");
}
