use nvlink_partitioning::maintenance::{
    credential_failure_error, decide_credential_recovery, decide_rack_maintenance,
    request_rack_maintenance_via_state_controller, should_store_access_token, switch_maintenance_results,
    ComponentManager, ComponentManagerError, PendingMaintenance, RackMaintenanceCredentialRecovery,
    RackMaintenanceEligibility, RackMaintenanceRequestOutcome, RackSnapshot, RackStateKind, SwitchRecord,
};
use nvlink_partitioning::maintenance::{
    after_recovery, after_scheduling, after_token_write, recover_after_credential_failure, RackMaintenanceStep,
};

#[test]
fn rack_maintenance_scheduler_outcomes() {
    let e = RackMaintenanceEligibility::ReadyOnly;
    assert_eq!(
        decide_rack_maintenance(PendingMaintenance::Nothing, "Ready", RackStateKind::Ready, e),
        RackMaintenanceRequestOutcome::Scheduled
    );
    assert_eq!(
        decide_rack_maintenance(PendingMaintenance::SameScope, "Discovering", RackStateKind::Other, e),
        RackMaintenanceRequestOutcome::AlreadyPending
    );
    assert_eq!(
        decide_rack_maintenance(PendingMaintenance::OtherScope, "Ready", RackStateKind::Ready, e),
        RackMaintenanceRequestOutcome::Busy
    );
    assert_eq!(
        decide_rack_maintenance(PendingMaintenance::Nothing, "Error", RackStateKind::Error, e),
        RackMaintenanceRequestOutcome::Deferred { state: "Error" }
    );
    assert_eq!(
        decide_rack_maintenance(
            PendingMaintenance::Nothing,
            "Error",
            RackStateKind::Error,
            RackMaintenanceEligibility::ReadyOrError
        ),
        RackMaintenanceRequestOutcome::Scheduled
    );
    assert_eq!(
        decide_rack_maintenance(
            PendingMaintenance::Nothing,
            "Discovering",
            RackStateKind::Other,
            RackMaintenanceEligibility::ReadyOrError
        ),
        RackMaintenanceRequestOutcome::Deferred { state: "Discovering" }
    );
}

#[test]
fn rack_maintenance_request_records_only_when_scheduled() {
    let rack = RackSnapshot { state: 1u8, kind: RackStateKind::Ready, pending: PendingMaintenance::Nothing };
    let d = request_rack_maintenance_via_state_controller("r1", Some(rack), RackMaintenanceEligibility::ReadyOnly, true)
        .unwrap();
    assert_eq!(d.outcome, RackMaintenanceRequestOutcome::Scheduled);
    assert!(d.record_request);
    assert!(d.reset_firmware_upgrade_job);

    let rack = RackSnapshot { state: 1u8, kind: RackStateKind::Ready, pending: PendingMaintenance::OtherScope };
    let d = request_rack_maintenance_via_state_controller("r1", Some(rack), RackMaintenanceEligibility::ReadyOnly, true)
        .unwrap();
    assert_eq!(d.outcome, RackMaintenanceRequestOutcome::Busy);
    assert!(!d.record_request);
    assert!(!d.reset_firmware_upgrade_job);

    let rack = RackSnapshot { state: 1u8, kind: RackStateKind::Ready, pending: PendingMaintenance::Nothing };
    let d = request_rack_maintenance_via_state_controller("r1", Some(rack), RackMaintenanceEligibility::ReadyOnly, false)
        .unwrap();
    assert!(d.record_request);
    assert!(!d.reset_firmware_upgrade_job);
}

#[test]
fn rack_maintenance_unknown_rack_is_not_found() {
    match request_rack_maintenance_via_state_controller::<u8>("rack-7", None, RackMaintenanceEligibility::ReadyOnly, false) {
        Err(ComponentManagerError::NotFound(m)) => assert_eq!(m, "rack rack-7 not found"),
        _ => panic!("expected not found"),
    }
}

#[test]
fn access_token_is_stored_only_for_scheduled_requests() {
    assert!(should_store_access_token::<u8>(&RackMaintenanceRequestOutcome::Scheduled, true));
    assert!(!should_store_access_token::<u8>(&RackMaintenanceRequestOutcome::Scheduled, false));
    assert!(!should_store_access_token::<u8>(&RackMaintenanceRequestOutcome::AlreadyPending, true));
    assert!(!should_store_access_token(&RackMaintenanceRequestOutcome::Deferred { state: 3u8 }, true));
}

#[test]
fn credential_recovery_decisions() {
    assert_eq!(
        decide_credential_recovery(false, true, RackStateKind::Ready),
        RackMaintenanceCredentialRecovery::RackNotFound
    );
    assert_eq!(
        decide_credential_recovery(true, false, RackStateKind::Ready),
        RackMaintenanceCredentialRecovery::RequestChanged
    );
    assert_eq!(
        decide_credential_recovery(true, true, RackStateKind::Other),
        RackMaintenanceCredentialRecovery::ExecutionStarted
    );
    assert_eq!(
        decide_credential_recovery(true, true, RackStateKind::Error),
        RackMaintenanceCredentialRecovery::Cleared
    );
}

#[test]
fn credential_failure_messages() {
    match credential_failure_error("boom", Ok(RackMaintenanceCredentialRecovery::Cleared)) {
        ComponentManagerError::Internal(m) => {
            assert_eq!(m, "failed to store rack maintenance access token: boom; recovery: Cleared")
        }
        _ => panic!("expected internal"),
    }
    match credential_failure_error("boom", Err("db down".to_string())) {
        ComponentManagerError::Internal(m) => assert_eq!(
            m,
            "failed to store rack maintenance access token: boom; failed to recover maintenance request: db down"
        ),
        _ => panic!("expected internal"),
    }
}

#[test]
fn switch_maintenance_reports_each_switch() {
    let ids = vec![1u128, 2u128, 0x0123456789abcdef0123456789abcdefu128];
    let records = vec![SwitchRecord::Present, SwitchRecord::Missing, SwitchRecord::MarkedForDeletion];
    let results = switch_maintenance_results(&ids, &records);
    assert_eq!(results.len(), 3);
    assert_eq!(results[0].switch_id, 1);
    assert!(results[0].error.is_none());
    assert_eq!(results[1].error.as_deref(), Some("switch 00000000-0000-0000-0000-000000000002 not found"));
    assert_eq!(
        results[2].error.as_deref(),
        Some("switch 01234567-89ab-cdef-0123-456789abcdef is marked for deletion")
    );
}

#[test]
fn switch_maintenance_needs_the_state_controller() {
    let cm = ComponentManager::new(0u8, 0u8, 0u8, false, true, true);
    match cm.request_switch_maintenance_via_state_controller(&vec![1], &vec![SwitchRecord::Present]) {
        Err(ComponentManagerError::InvalidArgument(m)) => assert_eq!(
            m,
            "nv_switch_use_state_controller is disabled; switch maintenance through the state controller is unavailable"
        ),
        _ => panic!("expected invalid argument"),
    }
    let cm = ComponentManager::new(0u8, 0u8, 0u8, true, false, false);
    let r = cm.request_switch_maintenance_via_state_controller(&vec![1], &vec![SwitchRecord::Missing]).unwrap();
    assert_eq!(r.len(), 1);
    assert!(r[0].error.is_some());
}

#[test]
fn failed_token_write_withdraws_the_request() {
    let rack = RackSnapshot { state: "Ready", kind: RackStateKind::Ready, pending: PendingMaintenance::Nothing };
    let d = request_rack_maintenance_via_state_controller("r1", Some(rack), RackMaintenanceEligibility::ReadyOnly, false)
        .ok()
        .unwrap();
    assert!(d.record_request);
    let outcome = match after_scheduling(d.outcome, true) {
        RackMaintenanceStep::StoreToken { outcome } => outcome,
        _ => panic!("expected the token to be stored"),
    };
    let write_error = match after_token_write(outcome, Err("vault down".to_string())) {
        RackMaintenanceStep::Recover { write_error } => write_error,
        _ => panic!("expected recovery"),
    };
    let decision = recover_after_credential_failure(Some((true, RackStateKind::Ready)));
    assert_eq!(decision.recovery, RackMaintenanceCredentialRecovery::Cleared);
    assert!(decision.clear_request);
    match after_recovery::<&str>(&write_error, Ok(decision.recovery)) {
        RackMaintenanceStep::Answer(Err(ComponentManagerError::Internal(m))) => {
            assert_eq!(m, "failed to store rack maintenance access token: vault down; recovery: Cleared");
            assert!(m.contains("recovery: Cleared"));
        }
        _ => panic!("expected an internal error"),
    }
}

#[test]
fn token_write_steps() {
    assert!(matches!(
        after_scheduling(RackMaintenanceRequestOutcome::<u8>::Busy, true),
        RackMaintenanceStep::Answer(Ok(RackMaintenanceRequestOutcome::Busy))
    ));
    assert!(matches!(
        after_scheduling(RackMaintenanceRequestOutcome::<u8>::Scheduled, false),
        RackMaintenanceStep::Answer(Ok(RackMaintenanceRequestOutcome::Scheduled))
    ));
    assert!(matches!(
        after_token_write(RackMaintenanceRequestOutcome::<u8>::Scheduled, Ok(())),
        RackMaintenanceStep::Answer(Ok(RackMaintenanceRequestOutcome::Scheduled))
    ));
    let started = recover_after_credential_failure(Some((true, RackStateKind::Other)));
    assert_eq!(started.recovery, RackMaintenanceCredentialRecovery::ExecutionStarted);
    assert!(!started.clear_request);
    let gone = recover_after_credential_failure(None);
    assert_eq!(gone.recovery, RackMaintenanceCredentialRecovery::RackNotFound);
    let changed = recover_after_credential_failure(Some((false, RackStateKind::Ready)));
    assert_eq!(changed.recovery, RackMaintenanceCredentialRecovery::RequestChanged);
    assert_eq!(ComponentManagerError::InvalidArgument("x".to_string()).message(), "invalid argument: x");
}
