use nvlink_partitioning::config::NvLinkConfig;
use nvlink_partitioning::context::PartitionProcessingContext;
use nvlink_partitioning::execution::{
    current_members_of, first_request, plan_db_updates, record_operation_result, update_requests, DbChange,
    PartitionRequest,
};
use nvlink_partitioning::keyed::KeyedVec;
use nvlink_partitioning::model::{
    DpuSnapshot, GpuConfig, HostSnapshot, Instance, LogicalPartition, MachineNvLinkInfo, ManagedHostSnapshot,
    NvLinkGpu, NvlPartition, PartitionId, PartitionInfo,
};
use nvlink_partitioning::monitor::{NvlPartitionMonitor, NvlPartitionMonitorMetrics};
use nvlink_partitioning::operation::NmxcPartitionOperation;
use nvlink_partitioning::sim::NmxcSimClient;

const LP: u128 = 0xabcdef;
const DOMAIN: u128 = 0x42;
const MACHINE: u128 = 3;

fn nmx_partitions(sim: &NmxcSimClient) -> Vec<PartitionInfo> {
    sim.get_partition_info_list(&vec![])
        .into_iter()
        .map(|p| PartitionInfo {
            partition_id: Some(PartitionId { partition_id: p.partition_id }),
            name: p.name,
            gpu_uid_list: p.gpu_uids,
        })
        .collect()
}

fn send(sim: &mut NmxcSimClient, request: &PartitionRequest) -> Result<Vec<PartitionInfo>, String> {
    match request {
        PartitionRequest::Create { name, gpu_uids, .. } => {
            let ids: Vec<Option<u64>> = gpu_uids.iter().map(|u| Some(*u)).collect();
            sim.create_partition(None, name.clone(), &ids).map(|_| vec![]).map_err(|e| format!("{e:?}"))
        }
        PartitionRequest::Delete { partition_id, .. } => {
            sim.delete_partition(Some(*partition_id));
            Ok(vec![])
        }
        PartitionRequest::ReadMembers { partition_id, .. } => {
            Ok(nmx_partitions(sim).into_iter().filter(|p| p.partition_id == Some(PartitionId { partition_id: *partition_id })).collect())
        }
        PartitionRequest::RemoveMembers { partition_id, gpu_uids, .. } => {
            sim.remove_gpus_from_partition(Some(*partition_id), gpu_uids).map(|_| vec![]).map_err(|e| format!("{e:?}"))
        }
        PartitionRequest::AddMembers { partition_id, gpu_uids, .. } => {
            sim.add_gpus_to_partition(Some(*partition_id), gpu_uids).map(|_| vec![]).map_err(|e| format!("{e:?}"))
        }
    }
}

fn execute(
    sim: &mut NmxcSimClient,
    ops: &KeyedVec<u128, Vec<NmxcPartitionOperation>>,
) -> KeyedVec<u128, Vec<NmxcPartitionOperation>> {
    let mut done: KeyedVec<u128, Vec<NmxcPartitionOperation>> = KeyedVec::new();
    for i in 0..ops.len() {
        let lp = ops.key_at(i);
        for op in ops.value_at(i) {
            let request = first_request(lp, op);
            let mut outcome = send(sim, &request).map(|_| ());
            if let (Ok(()), PartitionRequest::ReadMembers { partition_id, .. }) = (&outcome, &request) {
                let listed = send(sim, &request).unwrap();
                let current = current_members_of(&listed, *partition_id);
                for follow_up in update_requests(*partition_id, &op.gpu_uids, &current) {
                    if let Err(e) = send(sim, &follow_up) {
                        outcome = Err(e);
                        break;
                    }
                }
            }
            record_operation_result(&mut done, lp, op.duplicate(), outcome).unwrap();
        }
    }
    done
}

fn host(configs: Vec<GpuConfig>, gpus: &[NvLinkGpu]) -> ManagedHostSnapshot {
    ManagedHostSnapshot {
        host_snapshot: HostSnapshot {
            id: MACHINE,
            nvlink_info: Some(MachineNvLinkInfo { domain_uuid: DOMAIN, chassis_serial: "CH".to_string(), gpus: gpus.to_vec() }),
        },
        instance: Some(Instance { id: 9, machine_id: MACHINE, gpu_configs: configs }),
        dpu_snapshots: vec![],
    }
}

fn pass(
    sim: &mut NmxcSimClient,
    db: &mut Vec<NvlPartition>,
    mh: &ManagedHostSnapshot,
) -> usize {
    let mut info: KeyedVec<u128, Option<MachineNvLinkInfo>> = KeyedVec::new();
    info.insert(MACHINE, Some(mh.host_snapshot.nvlink_info.as_ref().unwrap().duplicate()));
    let lps = vec![LogicalPartition { id: LP, marked_as_deleted: false }];
    let db_copy: Vec<NvlPartition> = db.iter().map(|p| p.duplicate()).collect();
    let mut ctx = PartitionProcessingContext::new(nmx_partitions(sim), lps.clone(), db_copy, info);
    let monitor = NvlPartitionMonitor::new(NvLinkConfig::default());
    monitor.check_nv_link_partitions(&mut ctx, &vec![mh.duplicate()], &mut NvlPartitionMonitorMetrics::new()).unwrap();
    let done = execute(sim, &ctx.nmx_c_operations);
    let mut applied = 0;
    for change in plan_db_updates(&done, &lps, &nmx_partitions(sim)) {
        applied += 1;
        match change {
            DbChange::CreatePartition { logical_partition_id, name, domain_uuid, nmx_m_id } => db.push(NvlPartition {
                id: 0x1000 + db.len() as u128,
                logical_partition_id: Some(logical_partition_id),
                name,
                domain_uuid,
                nmx_m_id,
            }),
            DbChange::DeletePartition { id } => db.retain(|p| p.id != id),
            DbChange::DeleteLogicalPartition { .. } => {}
        }
    }
    applied
}

#[test]
fn passes_converge_on_the_instance_configuration() {
    let gpus = [NvLinkGpu { guid: 11, device_id: 1 }, NvLinkGpu { guid: 12, device_id: 2 }];
    let mut sim = NmxcSimClient::new();
    let mut db: Vec<NvlPartition> = vec![];

    // Both GPUs asked into the logical partition: one partition is created.
    let wanted = vec![
        GpuConfig { device_instance: 0, logical_partition_id: Some(LP) },
        GpuConfig { device_instance: 1, logical_partition_id: Some(LP) },
    ];
    let mh = host(wanted.clone(), &gpus);
    assert_eq!(pass(&mut sim, &mut db, &mh), 1);
    let parts = sim.get_partition_info_list(&vec![]);
    assert_eq!(parts.len(), 1);
    assert_eq!(parts[0].gpu_uids, vec![11, 12]);
    assert_eq!(db.len(), 1);
    assert_eq!(db[0].nmx_m_id, parts[0].partition_id.to_string());

    // Nothing changes once the configuration is met.
    assert_eq!(pass(&mut sim, &mut db, &mh), 0);
    assert_eq!(sim.get_partition_info_list(&vec![])[0].gpu_uids, vec![11, 12]);

    // One GPU is released: the partition is updated without it.
    let mh = host(vec![wanted[0]], &gpus);
    pass(&mut sim, &mut db, &mh);
    assert_eq!(sim.get_partition_info_list(&vec![])[0].gpu_uids, vec![11]);
    assert_eq!(pass(&mut sim, &mut db, &mh), 0);

    // Releasing the last GPU deletes the partition and its record.
    let mh = host(vec![], &gpus);
    assert_eq!(pass(&mut sim, &mut db, &mh), 1);
    assert_eq!(sim.get_partition_count(), 0);
    assert!(db.is_empty());
}
