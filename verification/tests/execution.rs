use nvlink_partitioning::execution::{
    completed_operations, count_operations, create_partition_name, current_members_of, first_request, partition_list_error, plan_db_updates,
    record_operation_result, same_member_set, set_difference, update_membership_changes, update_requests, DbChange,
    PartitionRequest,
};
use nvlink_partitioning::execution::{
    applied_changes, ends_run, operation_answer, start_operation, AppliedChange, NmxmPartitionOperationStatus,
    OperationKind, OperationStep,
};
use nvlink_partitioning::keyed::KeyedVec;
use nvlink_partitioning::model::{LogicalPartition, PartitionId, PartitionInfo};
use nvlink_partitioning::operation::{NmxcPartitionOperation, NmxcPartitionOperationType, NvLinkManagerError};

fn op(t: NmxcPartitionOperationType, uids: Vec<u64>) -> NmxcPartitionOperation {
    NmxcPartitionOperation {
        domain_uuid: Some(3),
        operation_type: t,
        gpu_uids: uids,
        name: "name".to_string(),
        db_partition_id: Some(77),
    }
}

fn sorted(mut v: Vec<u64>) -> Vec<u64> {
    v.sort();
    v
}

#[test]
fn partition_names_join_gpu_uids() {
    let lp = 0x00000000_0000_0000_0000_00000000002au128;
    assert_eq!(create_partition_name(lp, &vec![1, 22, 333]), "00000000-0000-0000-0000-00000000002a1,22,333");
    assert_eq!(create_partition_name(lp, &vec![]), "00000000-0000-0000-0000-00000000002a");
}

#[test]
fn partition_names_are_cut_at_240_chars() {
    let uids: Vec<u64> = (0..100u64).map(|i| u64::MAX - i).collect();
    let name = create_partition_name(1, &uids);
    assert_eq!(name.chars().count(), 240);
    assert!(name.starts_with("00000000-0000-0000-0000-00000000000118446744073709551615,"));
}

#[test]
fn first_request_per_operation() {
    match first_request(1, &op(NmxcPartitionOperationType::Create, vec![5, 6])) {
        PartitionRequest::Create { name, gpu_uids, partition_id, context, gateway_id } => {
            assert_eq!(name, "00000000-0000-0000-0000-0000000000015,6");
            assert_eq!(gpu_uids, vec![5, 6]);
            assert_eq!(partition_id, None);
            assert!(context.is_none());
            assert_eq!(gateway_id, "carbide");
        }
        _ => panic!("expected create"),
    }
    assert!(matches!(
        first_request(1, &op(NmxcPartitionOperationType::Remove(9), vec![])),
        PartitionRequest::Delete { partition_id: 9, .. }
    ));
    assert!(matches!(
        first_request(1, &op(NmxcPartitionOperationType::RemoveUnknownPartition(8), vec![])),
        PartitionRequest::Delete { partition_id: 8, .. }
    ));
    assert!(matches!(
        first_request(1, &op(NmxcPartitionOperationType::Update(7), vec![1])),
        PartitionRequest::ReadMembers { partition_id: 7, .. }
    ));
}

#[test]
fn update_computes_members_to_remove_and_add() {
    let (remove, add) = update_membership_changes(&vec![1, 2, 3, 3], &vec![3, 4, 4, 5]);
    assert_eq!(sorted(remove), vec![4, 5]);
    assert_eq!(sorted(add), vec![1, 2]);
    let (remove, add) = update_membership_changes(&vec![1, 2], &vec![2, 1]);
    assert!(remove.is_empty() && add.is_empty());
    assert_eq!(sorted(set_difference(&vec![9, 8, 9, 7], &vec![8])), vec![7, 9]);
    assert!(same_member_set(&vec![1, 2, 2], &vec![2, 1]));
    assert!(!same_member_set(&vec![1, 2], &vec![1, 3]));
}

#[test]
fn current_members_come_from_the_first_matching_partition() {
    let list = vec![
        PartitionInfo { partition_id: None, name: String::new(), gpu_uid_list: vec![1] },
        PartitionInfo { partition_id: Some(PartitionId { partition_id: 4 }), name: String::new(), gpu_uid_list: vec![2, 3] },
        PartitionInfo { partition_id: Some(PartitionId { partition_id: 4 }), name: String::new(), gpu_uid_list: vec![9] },
    ];
    assert_eq!(current_members_of(&list, 4), vec![2, 3]);
    assert!(current_members_of(&list, 5).is_empty());
}

#[test]
fn results_are_recorded_per_logical_partition() {
    let mut done: KeyedVec<u128, Vec<NmxcPartitionOperation>> = KeyedVec::new();
    assert!(record_operation_result(&mut done, 1, op(NmxcPartitionOperationType::Create, vec![1]), Ok(())).is_ok());
    assert!(record_operation_result(&mut done, 1, op(NmxcPartitionOperationType::Remove(3), vec![]), Err("x".to_string()))
        .is_ok());
    assert!(record_operation_result(&mut done, 2, op(NmxcPartitionOperationType::Update(4), vec![2]), Ok(())).is_ok());
    assert_eq!(count_operations(&done), 2);
    assert_eq!(done.get(&1).unwrap().len(), 1);
    match record_operation_result(
        &mut done,
        2,
        op(NmxcPartitionOperationType::RemoveUnknownPartition(5), vec![]),
        Err("unavailable".to_string()),
    ) {
        Err(NvLinkManagerError::Internal(m)) => assert_eq!(m, "Failed to delete default partition: unavailable"),
        _ => panic!("expected an error"),
    }
    assert_eq!(count_operations(&done), 2);
    assert!(record_operation_result(&mut done, 2, op(NmxcPartitionOperationType::RemoveUnknownPartition(5), vec![]), Ok(()))
        .is_ok());
    assert_eq!(count_operations(&done), 3);
}

#[test]
fn database_follows_completed_operations() {
    let mut done: KeyedVec<u128, Vec<NmxcPartitionOperation>> = KeyedVec::new();
    done.insert(1, vec![op(NmxcPartitionOperationType::Create, vec![5, 6]), op(NmxcPartitionOperationType::Remove(9), vec![])]);
    let fresh = vec![PartitionInfo {
        partition_id: Some(PartitionId { partition_id: 44 }),
        name: "n".to_string(),
        gpu_uid_list: vec![6, 5],
    }];
    let lps = vec![LogicalPartition { id: 1, marked_as_deleted: false }, LogicalPartition { id: 2, marked_as_deleted: true }];
    let changes = plan_db_updates(&done, &lps, &fresh);
    assert_eq!(changes.len(), 3);
    match &changes[0] {
        DbChange::CreatePartition { logical_partition_id, name, domain_uuid, nmx_m_id } => {
            assert_eq!(*logical_partition_id, 1);
            assert_eq!(name, "name");
            assert_eq!(*domain_uuid, 3);
            assert_eq!(nmx_m_id, "44");
        }
        _ => panic!("expected a created partition"),
    }
    assert!(matches!(changes[1], DbChange::DeletePartition { id: 77 }));
    assert!(matches!(changes[2], DbChange::DeleteLogicalPartition { id: 2 }));
}

#[test]
fn created_partition_missing_from_nmx_c_is_not_recorded() {
    let mut done: KeyedVec<u128, Vec<NmxcPartitionOperation>> = KeyedVec::new();
    done.insert(1, vec![op(NmxcPartitionOperationType::Create, vec![5, 6])]);
    let changes = plan_db_updates(&done, &vec![], &vec![]);
    assert!(changes.is_empty());
}

#[test]
fn update_requests_remove_then_add() {
    let r = update_requests(9, &vec![1, 2, 3], &vec![3, 4]);
    assert_eq!(r.len(), 2);
    match &r[0] {
        PartitionRequest::RemoveMembers { partition_id, gpu_uids, reroute, gateway_id } => {
            assert_eq!(*partition_id, 9);
            assert!(*reroute);
            assert_eq!(gateway_id, "carbide");
            assert_eq!(gpu_uids, &vec![4]);
        }
        _ => panic!("expected removal first"),
    }
    match &r[1] {
        PartitionRequest::AddMembers { partition_id, gpu_uids, reroute, gateway_id } => {
            assert_eq!(*partition_id, 9);
            assert!(*reroute);
            assert_eq!(gateway_id, "carbide");
            assert_eq!(sorted(gpu_uids.clone()), vec![1, 2]);
        }
        _ => panic!("expected addition last"),
    }
    assert!(update_requests(9, &vec![1, 2], &vec![2, 1, 1]).is_empty());
    let only_add = update_requests(9, &vec![1, 2], &vec![1]);
    assert_eq!(only_add.len(), 1);
    assert!(matches!(&only_add[0], PartitionRequest::AddMembers { gpu_uids, .. } if gpu_uids == &vec![2]));
    let only_remove = update_requests(9, &vec![], &vec![1]);
    assert!(matches!(&only_remove[0], PartitionRequest::RemoveMembers { gpu_uids, .. } if gpu_uids == &vec![1]));
}

#[test]
fn partition_list_failures_are_internal() {
    match partition_list_error("timeout") {
        NvLinkManagerError::Internal(m) => assert_eq!(m, "Failed to get NMX-C partition info list: timeout"),
    }
}

#[test]
fn completed_operations_keep_completed_ones_in_order() {
    let results = vec![
        (1u128, op(NmxcPartitionOperationType::Create, vec![1]), Ok(())),
        (2u128, op(NmxcPartitionOperationType::Remove(4), vec![]), Err("boom".to_string())),
        (1u128, op(NmxcPartitionOperationType::Update(5), vec![2]), Ok(())),
        (3u128, op(NmxcPartitionOperationType::Remove(6), vec![]), Ok(())),
    ];
    let done = completed_operations(&results).ok().unwrap();
    assert_eq!(done.len(), 2);
    let one = done.get(&1).unwrap();
    assert_eq!(one.len(), 2);
    assert_eq!(one[0].operation_type, NmxcPartitionOperationType::Create);
    assert_eq!(one[1].operation_type, NmxcPartitionOperationType::Update(5));
    assert!(done.get(&2).is_none());
    assert_eq!(done.get(&3).unwrap().len(), 1);
    assert_eq!(count_operations(&done), 3);
}

#[test]
fn completed_operations_stop_at_a_failed_unknown_partition_delete() {
    let results = vec![
        (1u128, op(NmxcPartitionOperationType::Create, vec![1]), Ok(())),
        (2u128, op(NmxcPartitionOperationType::RemoveUnknownPartition(4), vec![]), Err("gone".to_string())),
        (3u128, op(NmxcPartitionOperationType::RemoveUnknownPartition(5), vec![]), Err("later".to_string())),
    ];
    match completed_operations(&results) {
        Err(NvLinkManagerError::Internal(m)) => assert_eq!(m, "Failed to delete default partition: gone"),
        Ok(_) => panic!("expected the run to end"),
    }
}

#[test]
fn an_update_reads_then_removes_and_adds() {
    let update = op(NmxcPartitionOperationType::Update(4), vec![1, 2]);
    let (run, step) = start_operation(1, &update);
    assert!(matches!(step, OperationStep::Send(PartitionRequest::ReadMembers { partition_id: 4, .. })));
    let listed = vec![PartitionInfo { partition_id: Some(PartitionId { partition_id: 4 }), name: String::new(), gpu_uid_list: vec![2, 3] }];
    let (run, step) = operation_answer(run, &update, Ok(listed));
    match step {
        OperationStep::Send(PartitionRequest::RemoveMembers { partition_id: 4, gpu_uids, .. }) => assert_eq!(gpu_uids, vec![3]),
        _ => panic!("expected the removal"),
    }
    let (run, step) = operation_answer(run, &update, Ok(vec![]));
    match step {
        OperationStep::Send(PartitionRequest::AddMembers { partition_id: 4, gpu_uids, .. }) => assert_eq!(gpu_uids, vec![1]),
        _ => panic!("expected the addition"),
    }
    let (_, step) = operation_answer(run, &update, Ok(vec![]));
    assert!(matches!(step, OperationStep::Done(Ok(()))));
}

#[test]
fn the_first_failure_ends_an_operation() {
    let create = op(NmxcPartitionOperationType::Create, vec![1]);
    let (run, _) = start_operation(1, &create);
    let (_, step) = operation_answer(run, &create, Err("no".to_string()));
    assert!(matches!(step, OperationStep::Done(Err(e)) if e == "no"));
    let remove = op(NmxcPartitionOperationType::Remove(3), vec![]);
    let (run, _) = start_operation(1, &remove);
    let (_, step) = operation_answer(run, &remove, Ok(vec![]));
    assert!(matches!(step, OperationStep::Done(Ok(()))));
    assert!(ends_run(&op(NmxcPartitionOperationType::RemoveUnknownPartition(3), vec![]), &Err("x".to_string())));
    assert!(!ends_run(&op(NmxcPartitionOperationType::RemoveUnknownPartition(3), vec![]), &Ok(())));
    assert!(!ends_run(&remove, &Err("x".to_string())));
}

#[test]
fn applied_changes_are_counted_by_kind_and_status() {
    let results = vec![
        (1u128, op(NmxcPartitionOperationType::Create, vec![1]), Ok(())),
        (1u128, op(NmxcPartitionOperationType::Create, vec![2]), Ok(())),
        (2u128, op(NmxcPartitionOperationType::Remove(4), vec![]), Err("boom".to_string())),
        (3u128, op(NmxcPartitionOperationType::RemoveUnknownPartition(5), vec![]), Err("gone".to_string())),
    ];
    let counts = applied_changes(&results);
    assert_eq!(
        counts,
        vec![
            (AppliedChange { operation: OperationKind::Create, status: NmxmPartitionOperationStatus::Completed }, 2),
            (AppliedChange { operation: OperationKind::Remove, status: NmxmPartitionOperationStatus::Failed }, 1),
        ]
    );
}
