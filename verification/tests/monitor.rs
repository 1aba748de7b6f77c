use nvlink_partitioning::config::NvLinkConfig;
use nvlink_partitioning::context::PartitionProcessingContext;
use nvlink_partitioning::keyed::KeyedVec;
use nvlink_partitioning::model::{
    DpuSnapshot, GpuConfig, HostSnapshot, Instance, LogicalPartition, MachineNvLinkInfo, ManagedHostSnapshot,
    NvLinkGpu, NvlPartition, PartitionId, PartitionInfo,
};
use nvlink_partitioning::monitor::{
    is_nmx_c_default_partition, nmx_c_partition_id_string, NvlPartitionMonitor, NvlPartitionMonitorMetrics,
};
use nvlink_partitioning::operation::NmxcPartitionOperationType;
use nvlink_partitioning::time::Duration;

const LP: u128 = 0x11111111_2222_3333_4444_555555555555;
const DOMAIN: u128 = 0x99;
const MACHINE: u128 = 7;

fn info(gpus: Vec<NvLinkGpu>) -> MachineNvLinkInfo {
    MachineNvLinkInfo { domain_uuid: DOMAIN, chassis_serial: "CH1".to_string(), gpus }
}

fn partition(id: u32, name: &str, uids: Vec<u64>) -> PartitionInfo {
    PartitionInfo { partition_id: Some(PartitionId { partition_id: id }), name: name.to_string(), gpu_uid_list: uids }
}

fn host(instance: Option<Instance>, gpus: Vec<NvLinkGpu>, admin: Option<bool>) -> ManagedHostSnapshot {
    ManagedHostSnapshot {
        host_snapshot: HostSnapshot { id: MACHINE, nvlink_info: Some(info(gpus)) },
        instance,
        dpu_snapshots: vec![DpuSnapshot { use_admin_network: admin }],
    }
}

fn context(
    nmx: Vec<PartitionInfo>,
    db: Vec<NvlPartition>,
    gpus: Vec<NvLinkGpu>,
) -> PartitionProcessingContext {
    let mut machine_info: KeyedVec<u128, Option<MachineNvLinkInfo>> = KeyedVec::new();
    machine_info.insert(MACHINE, Some(info(gpus)));
    PartitionProcessingContext::new(nmx, vec![LogicalPartition { id: LP, marked_as_deleted: false }], db, machine_info)
}

fn monitor() -> NvlPartitionMonitor {
    NvlPartitionMonitor::new(NvLinkConfig::default())
}

#[test]
fn default_partition_detection() {
    assert!(is_nmx_c_default_partition(&partition(32766, "x", vec![])));
    assert!(is_nmx_c_default_partition(&partition(1, "NvlDefaultPartition", vec![])));
    assert!(!is_nmx_c_default_partition(&partition(1, "default", vec![])));
    let no_id = PartitionInfo { partition_id: None, name: "p".to_string(), gpu_uid_list: vec![] };
    assert!(!is_nmx_c_default_partition(&no_id));
    assert_eq!(nmx_c_partition_id_string(&partition(4321, "p", vec![])), "4321");
    assert_eq!(nmx_c_partition_id_string(&no_id), "");
}

#[test]
fn metrics_are_held_a_minute_past_the_interval() {
    let m = monitor();
    assert_eq!(m.metrics_hold_period, Duration::from_secs(120));
    let mut cfg = NvLinkConfig::default();
    cfg.monitor_run_interval = Duration::max_value();
    let m = NvlPartitionMonitor::new(cfg);
    assert_eq!(m.metrics_hold_period, Duration::max_value());
    assert!(!m.should_start());
    let mut cfg = NvLinkConfig::default();
    cfg.enabled = true;
    assert!(NvlPartitionMonitor::new(cfg).should_start());
}

#[test]
fn gpu_asked_into_a_logical_partition_gets_a_new_partition() {
    let gpus = vec![NvLinkGpu { guid: 100, device_id: 1 }];
    let mut ctx = context(vec![], vec![], gpus.clone());
    let inst = Instance {
        id: 5,
        machine_id: MACHINE,
        gpu_configs: vec![GpuConfig { device_instance: 0, logical_partition_id: Some(LP) }],
    };
    let mhs = vec![host(Some(inst), gpus, Some(false))];
    let statuses = monitor().check_nv_link_partitions_at(&mut ctx, &mhs, &mut NvlPartitionMonitorMetrics::new(), 1234).unwrap();

    assert_eq!(ctx.nmx_c_operations.len(), 1);
    let ops = ctx.nmx_c_operations.get(&LP).unwrap();
    assert_eq!(ops.len(), 1);
    assert_eq!(ops[0].operation_type, NmxcPartitionOperationType::Create);
    assert_eq!(ops[0].gpu_uids, vec![100]);
    assert_eq!(ops[0].domain_uuid, Some(DOMAIN));
    assert_eq!(ops[0].name, "11111111-2222-3333-4444-555555555555100");

    let obs = statuses.get(&MACHINE).unwrap();
    assert_eq!(obs.observed_at, 1234);
    assert_eq!(obs.nvlink_gpus.len(), 1);
    assert_eq!(obs.nvlink_gpus[0].gpu_id, "100");
    assert_eq!(obs.nvlink_gpus[0].device_instance, 0);
}

#[test]
fn gpu_already_in_its_partition_needs_nothing() {
    let gpus = vec![NvLinkGpu { guid: 100, device_id: 1 }];
    let db = vec![NvlPartition {
        id: 0xabc,
        logical_partition_id: Some(LP),
        name: "p".to_string(),
        domain_uuid: DOMAIN,
        nmx_m_id: "12".to_string(),
    }];
    let mut ctx = context(vec![partition(12, "p", vec![100])], db, gpus.clone());
    let inst = Instance {
        id: 5,
        machine_id: MACHINE,
        gpu_configs: vec![GpuConfig { device_instance: 0, logical_partition_id: Some(LP) }],
    };
    let mhs = vec![host(Some(inst), gpus, Some(false))];
    let statuses = monitor().check_nv_link_partitions_at(&mut ctx, &mhs, &mut NvlPartitionMonitorMetrics::new(), 1).unwrap();
    assert_eq!(ctx.nmx_c_operations.len(), 0);
    let obs = statuses.get(&MACHINE).unwrap();
    assert_eq!(obs.nvlink_gpus[0].logical_partition_id, Some(LP));
    assert_eq!(obs.nvlink_gpus[0].partition_id, Some(0xabc));
}

#[test]
fn gpu_no_longer_wanted_is_removed_from_its_partition() {
    let gpus = vec![NvLinkGpu { guid: 100, device_id: 1 }];
    let db = vec![NvlPartition {
        id: 0xabc,
        logical_partition_id: Some(LP),
        name: "p".to_string(),
        domain_uuid: DOMAIN,
        nmx_m_id: "12".to_string(),
    }];
    let mut ctx = context(vec![partition(12, "p", vec![100, 101])], db, gpus.clone());
    let inst = Instance { id: 5, machine_id: MACHINE, gpu_configs: vec![] };
    let mhs = vec![host(Some(inst), gpus, Some(false))];
    monitor().check_nv_link_partitions_at(&mut ctx, &mhs, &mut NvlPartitionMonitorMetrics::new(), 1).unwrap();
    let ops = ctx.nmx_c_operations.get(&LP).unwrap();
    assert_eq!(ops.len(), 1);
    assert_eq!(ops[0].operation_type, NmxcPartitionOperationType::Update(12));
    assert_eq!(ops[0].gpu_uids, vec![101]);
    assert_eq!(ops[0].db_partition_id, Some(0xabc));
}

#[test]
fn every_unwanted_gpu_is_dropped_over_the_pass() {
    let gpus = vec![NvLinkGpu { guid: 100, device_id: 1 }, NvLinkGpu { guid: 101, device_id: 2 }];
    let db = vec![NvlPartition {
        id: 0xabc,
        logical_partition_id: Some(LP),
        name: "p".to_string(),
        domain_uuid: DOMAIN,
        nmx_m_id: "12".to_string(),
    }];
    let mut ctx = context(vec![partition(12, "p", vec![100, 101, 102])], db, gpus.clone());
    let inst = Instance { id: 5, machine_id: MACHINE, gpu_configs: vec![] };
    let mhs = vec![host(Some(inst), gpus, Some(false))];
    monitor().check_nv_link_partitions_at(&mut ctx, &mhs, &mut NvlPartitionMonitorMetrics::new(), 1).unwrap();
    let ops = ctx.nmx_c_operations.get(&LP).unwrap();
    assert_eq!(ops.len(), 1);
    assert_eq!(ops[0].operation_type, NmxcPartitionOperationType::Update(12));
    assert_eq!(ops[0].gpu_uids, vec![102]);
}

#[test]
fn idle_host_on_admin_network_returns_gpus_to_default_partition() {
    let gpus = vec![NvLinkGpu { guid: 100, device_id: 1 }];
    let mut ctx = context(vec![partition(32766, "default", vec![1, 2])], vec![], gpus.clone());
    let mhs = vec![host(None, gpus, None)];
    let statuses = monitor().check_nv_link_partitions_at(&mut ctx, &mhs, &mut NvlPartitionMonitorMetrics::new(), 1).unwrap();
    assert_eq!(statuses.len(), 0);
    let ops = ctx.nmx_c_operations.get(&0).unwrap();
    assert_eq!(ops.len(), 1);
    assert_eq!(ops[0].operation_type, NmxcPartitionOperationType::Update(32766));
    assert_eq!(ops[0].gpu_uids, vec![1, 2, 100]);
}

#[test]
fn idle_host_off_admin_network_is_left_alone() {
    let gpus = vec![NvLinkGpu { guid: 100, device_id: 1 }];
    let mut ctx = context(vec![partition(32766, "default", vec![1, 2])], vec![], gpus.clone());
    let mhs = vec![host(None, gpus, Some(false))];
    monitor().check_nv_link_partitions_at(&mut ctx, &mhs, &mut NvlPartitionMonitorMetrics::new(), 1).unwrap();
    assert_eq!(ctx.nmx_c_operations.len(), 0);
}

#[test]
fn gpu_in_unknown_partition_is_taken_out() {
    let gpus = vec![NvLinkGpu { guid: 100, device_id: 1 }];
    let mut ctx = context(vec![partition(55, "stray", vec![100])], vec![], gpus.clone());
    let inst = Instance { id: 5, machine_id: MACHINE, gpu_configs: vec![] };
    let mhs = vec![host(Some(inst), gpus, Some(false))];
    monitor().check_nv_link_partitions_at(&mut ctx, &mhs, &mut NvlPartitionMonitorMetrics::new(), 1).unwrap();
    let ops = ctx.nmx_c_operations.get(&0).unwrap();
    assert_eq!(ops.len(), 1);
    assert_eq!(ops[0].operation_type, NmxcPartitionOperationType::RemoveUnknownPartition(55));
    assert!(ops[0].gpu_uids.is_empty());
}

#[test]
fn pass_counts_what_it_scans_and_keys_by_instance_machine() {
    let gpus = vec![NvLinkGpu { guid: 100, device_id: 1 }, NvLinkGpu { guid: 101, device_id: 2 }];
    let mut ctx = context(vec![], vec![], gpus.clone());
    let inst = Instance { id: 5, machine_id: MACHINE, gpu_configs: vec![] };
    let mhs = vec![host(Some(inst), gpus.clone(), Some(false)), host(None, gpus, Some(false))];
    let mut metrics = NvlPartitionMonitorMetrics::new();
    metrics.num_machines_scanned = 3;
    let statuses = monitor().check_nv_link_partitions_at(&mut ctx, &mhs, &mut metrics, 1).unwrap();
    assert_eq!(statuses.len(), 1);
    assert!(statuses.get(&MACHINE).is_some());
    assert_eq!(metrics.num_machines_scanned, 5);
    assert_eq!(metrics.num_instances_scanned, 1);
    assert_eq!(metrics.num_gpus_scanned, 2);
    assert_eq!(metrics.num_machine_nvl_status_updates, 1);
}
