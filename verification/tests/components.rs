use nvlink_partitioning::components::{
    build_component_manager, BackendResources, ComponentManagerConfig, ComputeBackend, NvSwitchBackend,
    PowerShelfBackend,
};
use nvlink_partitioning::maintenance::ComponentManagerError;

fn config(nv: NvSwitchBackend, ps: PowerShelfBackend, ct: ComputeBackend) -> ComponentManagerConfig {
    ComponentManagerConfig {
        nv_switch_backend: nv,
        power_shelf_backend: ps,
        compute_tray_backend: ct,
        has_nsm: false,
        has_psm: false,
        nv_switch_use_state_controller: false,
        power_shelf_use_state_controller: false,
        compute_tray_use_state_controller: false,
    }
}

fn nothing() -> BackendResources {
    BackendResources { has_rms_client: false, has_db: false, has_redfish_pool: false }
}

fn invalid_argument(r: Result<impl Sized, ComponentManagerError>) -> String {
    match r {
        Err(ComponentManagerError::InvalidArgument(m)) => m,
        _ => panic!("expected an invalid argument"),
    }
}

#[test]
fn build_with_mock_backends() {
    let config = config(NvSwitchBackend::Mock, PowerShelfBackend::Mock, ComputeBackend::Mock);
    let cm = build_component_manager(&config, Ok(()), &nothing()).unwrap();
    assert_eq!(cm.nv_switch, NvSwitchBackend::Mock);
    assert_eq!(cm.power_shelf, PowerShelfBackend::Mock);
    assert_eq!(cm.compute_tray, ComputeBackend::Mock);
}

#[test]
fn build_nsm_without_config_returns_error() {
    let config = config(NvSwitchBackend::Nsm, PowerShelfBackend::Mock, ComputeBackend::Mock);
    let err = build_component_manager(&config, Ok(()), &nothing()).unwrap_err();
    assert!(matches!(err, ComponentManagerError::InvalidArgument(_)));
}

#[test]
fn build_psm_without_config_returns_error() {
    let config = config(NvSwitchBackend::Mock, PowerShelfBackend::Psm, ComputeBackend::Mock);
    let err = build_component_manager(&config, Ok(()), &nothing()).unwrap_err();
    assert!(matches!(err, ComponentManagerError::InvalidArgument(_)));
}

#[test]
fn missing_prerequisites_are_named() {
    let r = build_component_manager(
        &config(NvSwitchBackend::Nsm, PowerShelfBackend::Mock, ComputeBackend::Mock),
        Ok(()),
        &nothing(),
    );
    assert_eq!(invalid_argument(r), "nv_switch_backend is 'nsm' but [component_manager.nsm] config is missing");
    let r = build_component_manager(
        &config(NvSwitchBackend::Rms, PowerShelfBackend::Mock, ComputeBackend::Mock),
        Ok(()),
        &nothing(),
    );
    assert_eq!(invalid_argument(r), "nv_switch_backend is 'rms' but RMS client is not configured");
    let rms_only = BackendResources { has_rms_client: true, has_db: false, has_redfish_pool: false };
    let r = build_component_manager(
        &config(NvSwitchBackend::Mock, PowerShelfBackend::Rms, ComputeBackend::Mock),
        Ok(()),
        &rms_only,
    );
    assert_eq!(invalid_argument(r), "power_shelf_backend is 'rms' but database pool is not configured");
    let r = build_component_manager(
        &config(NvSwitchBackend::Mock, PowerShelfBackend::Psm, ComputeBackend::Mock),
        Ok(()),
        &nothing(),
    );
    assert_eq!(invalid_argument(r), "power_shelf_backend is 'psm' but [component_manager.psm] config is missing");
    let r = build_component_manager(
        &config(NvSwitchBackend::Mock, PowerShelfBackend::Mock, ComputeBackend::Core),
        Ok(()),
        &nothing(),
    );
    assert_eq!(invalid_argument(r), "compute_tray_backend is 'core' but Redfish client pool is not configured");
    let r = build_component_manager(
        &config(NvSwitchBackend::Mock, PowerShelfBackend::Mock, ComputeBackend::Rms),
        Ok(()),
        &rms_only,
    );
    assert_eq!(invalid_argument(r), "compute_tray_backend is 'rms' but database pool is not configured");
}

#[test]
fn switch_refusal_comes_before_others() {
    let r = build_component_manager(
        &config(NvSwitchBackend::Nsm, PowerShelfBackend::Psm, ComputeBackend::Core),
        Ok(()),
        &nothing(),
    );
    assert_eq!(invalid_argument(r), "nv_switch_backend is 'nsm' but [component_manager.nsm] config is missing");
}

#[test]
fn rack_profile_refusal_comes_first() {
    let r = build_component_manager(
        &config(NvSwitchBackend::Nsm, PowerShelfBackend::Mock, ComputeBackend::Mock),
        Err(ComponentManagerError::InvalidArgument("profiles".to_string())),
        &nothing(),
    );
    assert_eq!(invalid_argument(r), "profiles");
}

#[test]
fn build_with_all_prerequisites_keeps_selection() {
    let mut c = config(NvSwitchBackend::Nsm, PowerShelfBackend::Rms, ComputeBackend::Core);
    c.has_nsm = true;
    c.nv_switch_use_state_controller = true;
    let all = BackendResources { has_rms_client: true, has_db: true, has_redfish_pool: true };
    let cm = build_component_manager(&c, Ok(()), &all).unwrap();
    assert_eq!(cm.nv_switch, NvSwitchBackend::Nsm);
    assert_eq!(cm.power_shelf, PowerShelfBackend::Rms);
    assert_eq!(cm.compute_tray, ComputeBackend::Core);
    assert!(cm.nv_switch_use_state_controller);
    assert!(!cm.power_shelf_use_state_controller);
}
