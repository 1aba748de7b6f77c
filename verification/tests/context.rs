use nvlink_partitioning::context::{GpuProcessingContext, PartitionProcessingContext};
use nvlink_partitioning::keyed::KeyedVec;
use nvlink_partitioning::model::{LogicalPartition, MachineNvLinkInfo, NvlPartition, PartitionId, PartitionInfo};
use nvlink_partitioning::operation::{NmxcPartitionOperationType, NvLinkManagerError};

fn ctx() -> PartitionProcessingContext {
    let nmx = vec![PartitionInfo {
        partition_id: Some(PartitionId { partition_id: 12 }),
        name: "p".to_string(),
        gpu_uid_list: vec![100, 101, 102],
    }];
    let lps = vec![LogicalPartition { id: 1, marked_as_deleted: false }, LogicalPartition { id: 2, marked_as_deleted: true }];
    let db = vec![
        NvlPartition { id: 0xa, logical_partition_id: Some(1), name: "p".to_string(), domain_uuid: 9, nmx_m_id: "12".to_string() },
        NvlPartition { id: 0xb, logical_partition_id: Some(1), name: "q".to_string(), domain_uuid: 9, nmx_m_id: "x".to_string() },
    ];
    let info: KeyedVec<u128, Option<MachineNvLinkInfo>> = KeyedVec::new();
    PartitionProcessingContext::new(nmx, lps, db, info)
}

fn message(r: Result<(), NvLinkManagerError>) -> String {
    match r {
        Err(NvLinkManagerError::Internal(m)) => m,
        Ok(()) => panic!("expected an error"),
    }
}

#[test]
fn context_indexes_partitions() {
    let c = ctx();
    assert_eq!(c.gpu_to_partition_map.len(), 3);
    assert!(c.db_nvl_partitions.get(&12).is_some());
    assert_eq!(c.db_nvl_partitions.len(), 1);
    assert!(c.validate_logical_partition(&1));
    assert!(!c.validate_logical_partition(&2));
    assert!(!c.validate_logical_partition(&3));
    let (id, lp, name, nmx) = c.get_db_partition_info(12).unwrap();
    assert_eq!((id, lp, name.as_str(), nmx), (Some(0xa), Some(1), "p", PartitionId { partition_id: 12 }));
    assert!(c.get_db_partition_info(13).is_none());
}

#[test]
fn handlers_need_a_logical_partition() {
    let mut c = ctx();
    let g = GpuProcessingContext::new(100, 9);
    assert_eq!(message(c.handle_gpu_removal(&g, vec![])), "Logical partition ID is required for GPU removal");
    assert_eq!(
        message(c.handle_gpu_addition_new_partition(&g)),
        "Logical partition ID is required for GPU addition to new partition"
    );
    let p = NvlPartition { id: 0xa, logical_partition_id: Some(1), name: "p".to_string(), domain_uuid: 9, nmx_m_id: "12".to_string() };
    assert_eq!(
        message(c.handle_gpu_addition_existing_partition(&g, &p)),
        "Logical partition ID is required for GPU addition to existing partition"
    );
    assert_eq!(c.nmx_c_operations.len(), 0);
}

#[test]
fn adding_to_a_partition_nmx_c_lacks_fails() {
    let mut c = ctx();
    let mut g = GpuProcessingContext::new(200, 9);
    g.logical_partition_id = Some(1);
    let p = NvlPartition { id: 0xc, logical_partition_id: Some(1), name: "r".to_string(), domain_uuid: 9, nmx_m_id: "77".to_string() };
    assert_eq!(
        message(c.handle_gpu_addition_existing_partition(&g, &p)),
        "NMX-C partition not found for GPU addition to existing partition"
    );
}

#[test]
fn additions_join_the_same_operation() {
    let mut c = ctx();
    let mut g = GpuProcessingContext::new(200, 9);
    g.logical_partition_id = Some(1);
    let p = NvlPartition { id: 0xa, logical_partition_id: Some(1), name: "p".to_string(), domain_uuid: 9, nmx_m_id: "12".to_string() };
    assert!(c.handle_gpu_addition_existing_partition(&g, &p).is_ok());
    g.gpu_guid = 201;
    assert!(c.handle_gpu_addition_existing_partition(&g, &p).is_ok());
    let ops = c.nmx_c_operations.get(&1).unwrap();
    assert_eq!(ops.len(), 1);
    assert_eq!(ops[0].operation_type, NmxcPartitionOperationType::Update(12));
    assert_eq!(ops[0].gpu_uids, vec![100, 101, 102, 200, 201]);

    let mut n = GpuProcessingContext::new(300, 9);
    n.logical_partition_id = Some(5);
    assert!(c.handle_gpu_addition_new_partition(&n).is_ok());
    n.gpu_guid = 301;
    assert!(c.handle_gpu_addition_new_partition(&n).is_ok());
    let ops = c.nmx_c_operations.get(&5).unwrap();
    assert_eq!(ops.len(), 1);
    assert_eq!(ops[0].operation_type, NmxcPartitionOperationType::Create);
    assert_eq!(ops[0].gpu_uids, vec![300, 301]);
}

#[test]
fn removals_keep_the_other_members() {
    let mut c = ctx();
    let keep = c.get_gpus_to_keep_after_removal(Some(1), &PartitionId { partition_id: 12 }, 101, &7, 0).unwrap();
    assert_eq!(keep, vec![100, 102]);
    let mut g = GpuProcessingContext::new(101, 9);
    g.logical_partition_id = Some(1);
    g.partition_id = Some(0xa);
    g.partition_nmx_c_id = PartitionId { partition_id: 12 };
    assert!(c.handle_gpu_removal(&g, keep).is_ok());
    let keep = c.get_gpus_to_keep_after_removal(Some(1), &PartitionId { partition_id: 12 }, 100, &7, 0).unwrap();
    assert_eq!(keep, vec![102]);
    g.gpu_guid = 100;
    assert!(c.handle_gpu_removal(&g, keep).is_ok());
    let keep = c.get_gpus_to_keep_after_removal(Some(1), &PartitionId { partition_id: 12 }, 102, &7, 0).unwrap();
    assert!(keep.is_empty());
    g.gpu_guid = 102;
    assert!(c.handle_gpu_removal(&g, keep).is_ok());
    let ops = c.nmx_c_operations.get(&1).unwrap();
    assert_eq!(ops.len(), 1);
    assert_eq!(ops[0].operation_type, NmxcPartitionOperationType::Remove(12));
    assert!(c.get_gpus_to_keep_after_removal(None, &PartitionId { partition_id: 12 }, 102, &7, 0).is_none());
}

#[test]
fn unknown_partition_operations() {
    let mut c = ctx();
    assert!(c.handle_gpu_addition_to_unknown_partition(&PartitionId { partition_id: 32766 }, 5, vec![1, 2]).is_ok());
    assert!(c.handle_gpu_addition_to_unknown_partition(&PartitionId { partition_id: 32766 }, 6, vec![1, 2]).is_ok());
    assert!(c.handle_gpu_addition_to_unknown_partition(&PartitionId { partition_id: 32766 }, 6, vec![1, 2]).is_ok());
    let op = c.unknown_partition_addition_operations.get(&32766).unwrap();
    assert_eq!(op.operation_type, NmxcPartitionOperationType::Update(32766));
    assert_eq!(op.gpu_uids, vec![1, 2, 5, 6]);

    let keep = c.get_gpus_to_keep_in_unknown_partition_after_removal(&PartitionId { partition_id: 12 }, 100, &7, 0).unwrap();
    assert_eq!(keep, vec![101, 102]);
    assert!(c.handle_gpu_removal_from_unknown_partition(&PartitionId { partition_id: 12 }, 100, keep).is_ok());
    let ops = c.unknown_partition_removal_operations.get(&12).unwrap();
    assert_eq!(ops[0].operation_type, NmxcPartitionOperationType::Update(12));
    assert!(c.get_gpus_to_keep_in_unknown_partition_after_removal(&PartitionId { partition_id: 99 }, 100, &7, 0).is_none());
}

#[test]
fn default_gpu_context_is_blank() {
    let g = GpuProcessingContext::default();
    assert_eq!((g.gpu_guid, g.domain_uuid), (0, 0));
    assert_eq!(g.logical_partition_id, None);
    assert_eq!(g.partition_id, None);
    assert!(g.partition_name.is_empty());
    assert_eq!(g.partition_nmx_c_id, PartitionId { partition_id: 0 });
}

#[test]
fn second_removal_rewrites_the_first() {
    let nmx = vec![PartitionInfo {
        partition_id: Some(PartitionId { partition_id: 7 }),
        name: "p".to_string(),
        gpu_uid_list: vec![5, 6],
    }];
    let info: KeyedVec<u128, Option<MachineNvLinkInfo>> = KeyedVec::new();
    let mut c = PartitionProcessingContext::new(nmx, vec![], vec![], info);
    for u in [5u64, 6] {
        let keep = c.get_gpus_to_keep_after_removal(Some(1), &PartitionId { partition_id: 7 }, u, &3, 0).unwrap();
        let g = GpuProcessingContext {
            gpu_guid: u,
            domain_uuid: 9,
            logical_partition_id: Some(1),
            partition_id: Some(0xa),
            partition_name: "p".to_string(),
            partition_nmx_c_id: PartitionId { partition_id: 7 },
        };
        c.handle_gpu_removal(&g, keep).unwrap();
    }
    let ops = c.nmx_c_operations.get(&1).unwrap();
    assert_eq!(ops.len(), 1);
    assert_eq!(ops[0].operation_type, NmxcPartitionOperationType::Remove(7));
    assert!(ops[0].gpu_uids.is_empty());
}
