//! Choosing the backend of each component type from configuration: which
//! implementation drives switches, power shelves and compute trays, and which
//! missing prerequisite refuses the configuration.

use vstd::prelude::*;
use crate::maintenance::{ComponentManager, ComponentManagerError};

verus! {

/// The backend configured for NV switches.
#[derive(Clone, Copy, PartialEq, Eq, Structural, Debug)]
pub enum NvSwitchBackend {
    Nsm,
    Rms,
    Mock,
}

/// The backend configured for power shelves.
#[derive(Clone, Copy, PartialEq, Eq, Structural, Debug)]
pub enum PowerShelfBackend {
    Psm,
    Rms,
    Mock,
}

/// The backend configured for compute trays.
#[derive(Clone, Copy, PartialEq, Eq, Structural, Debug)]
pub enum ComputeBackend {
    Rms,
    Core,
    Mock,
}

/// The component-manager configuration that backend selection reads.
#[derive(Clone, Copy, Debug)]
pub struct ComponentManagerConfig {
    pub nv_switch_backend: NvSwitchBackend,
    pub power_shelf_backend: PowerShelfBackend,
    pub compute_tray_backend: ComputeBackend,
    /// Whether a `[component_manager.nsm]` section is present.
    pub has_nsm: bool,
    /// Whether a `[component_manager.psm]` section is present.
    pub has_psm: bool,
    pub nv_switch_use_state_controller: bool,
    pub power_shelf_use_state_controller: bool,
    pub compute_tray_use_state_controller: bool,
}

/// Which shared services the process was started with.
#[derive(Clone, Copy, Debug)]
pub struct BackendResources {
    pub has_rms_client: bool,
    pub has_db: bool,
    pub has_redfish_pool: bool,
}

/// The refusal for the switch backend, if any.
pub open spec fn nv_switch_refusal(cfg: ComponentManagerConfig, res: BackendResources) -> Option<Seq<char>> {
    match cfg.nv_switch_backend {
        NvSwitchBackend::Nsm => if !cfg.has_nsm {
            Some("nv_switch_backend is 'nsm' but [component_manager.nsm] config is missing"@)
        } else {
            None
        },
        NvSwitchBackend::Rms => if !res.has_rms_client {
            Some("nv_switch_backend is 'rms' but RMS client is not configured"@)
        } else if !res.has_db {
            Some("nv_switch_backend is 'rms' but database pool is not configured"@)
        } else {
            None
        },
        NvSwitchBackend::Mock => None,
    }
}

/// The refusal for the power-shelf backend, if any.
pub open spec fn power_shelf_refusal(cfg: ComponentManagerConfig, res: BackendResources) -> Option<Seq<char>> {
    match cfg.power_shelf_backend {
        PowerShelfBackend::Psm => if !cfg.has_psm {
            Some("power_shelf_backend is 'psm' but [component_manager.psm] config is missing"@)
        } else {
            None
        },
        PowerShelfBackend::Rms => if !res.has_rms_client {
            Some("power_shelf_backend is 'rms' but RMS client is not configured"@)
        } else if !res.has_db {
            Some("power_shelf_backend is 'rms' but database pool is not configured"@)
        } else {
            None
        },
        PowerShelfBackend::Mock => None,
    }
}

/// The refusal for the compute-tray backend, if any.
pub open spec fn compute_tray_refusal(cfg: ComponentManagerConfig, res: BackendResources) -> Option<Seq<char>> {
    match cfg.compute_tray_backend {
        ComputeBackend::Rms => if !res.has_rms_client {
            Some("compute_tray_backend is 'rms' but RMS client is not configured"@)
        } else if !res.has_db {
            Some("compute_tray_backend is 'rms' but database pool is not configured"@)
        } else {
            None
        },
        ComputeBackend::Core => if !res.has_redfish_pool {
            Some("compute_tray_backend is 'core' but Redfish client pool is not configured"@)
        } else {
            None
        },
        ComputeBackend::Mock => None,
    }
}

/// The first refusal, in the order switches, power shelves, compute trays.
pub open spec fn configuration_refusal(cfg: ComponentManagerConfig, res: BackendResources) -> Option<Seq<char>> {
    if nv_switch_refusal(cfg, res) is Some {
        nv_switch_refusal(cfg, res)
    } else if power_shelf_refusal(cfg, res) is Some {
        power_shelf_refusal(cfg, res)
    } else {
        compute_tray_refusal(cfg, res)
    }
}

fn refuse(text: &str) -> (e: ComponentManagerError)
    ensures
        e matches ComponentManagerError::InvalidArgument(t) && t@ == text@,
{
    ComponentManagerError::InvalidArgument(String::from_str(text))
}

fn check_nv_switch(cfg: &ComponentManagerConfig, res: &BackendResources) -> (r: Result<(), ComponentManagerError>)
    ensures
        r is Ok <==> nv_switch_refusal(*cfg, *res) is None,
        r matches Err(e) ==> nv_switch_refusal(*cfg, *res) matches Some(m) && (e matches ComponentManagerError::InvalidArgument(t) && t@ == m),
{
    match cfg.nv_switch_backend {
        NvSwitchBackend::Nsm => if !cfg.has_nsm {
            return Err(refuse("nv_switch_backend is 'nsm' but [component_manager.nsm] config is missing"));
        },
        NvSwitchBackend::Rms => if !res.has_rms_client {
            return Err(refuse("nv_switch_backend is 'rms' but RMS client is not configured"));
        } else if !res.has_db {
            return Err(refuse("nv_switch_backend is 'rms' but database pool is not configured"));
        },
        NvSwitchBackend::Mock => {},
    }
    Ok(())
}

fn check_power_shelf(cfg: &ComponentManagerConfig, res: &BackendResources) -> (r: Result<(), ComponentManagerError>)
    ensures
        r is Ok <==> power_shelf_refusal(*cfg, *res) is None,
        r matches Err(e) ==> power_shelf_refusal(*cfg, *res) matches Some(m) && (e matches ComponentManagerError::InvalidArgument(t) && t@ == m),
{
    match cfg.power_shelf_backend {
        PowerShelfBackend::Psm => if !cfg.has_psm {
            return Err(refuse("power_shelf_backend is 'psm' but [component_manager.psm] config is missing"));
        },
        PowerShelfBackend::Rms => if !res.has_rms_client {
            return Err(refuse("power_shelf_backend is 'rms' but RMS client is not configured"));
        } else if !res.has_db {
            return Err(refuse("power_shelf_backend is 'rms' but database pool is not configured"));
        },
        PowerShelfBackend::Mock => {},
    }
    Ok(())
}

fn check_compute_tray(cfg: &ComponentManagerConfig, res: &BackendResources) -> (r: Result<(), ComponentManagerError>)
    ensures
        r is Ok <==> compute_tray_refusal(*cfg, *res) is None,
        r matches Err(e) ==> compute_tray_refusal(*cfg, *res) matches Some(m) && (e matches ComponentManagerError::InvalidArgument(t) && t@ == m),
{
    match cfg.compute_tray_backend {
        ComputeBackend::Rms => if !res.has_rms_client {
            return Err(refuse("compute_tray_backend is 'rms' but RMS client is not configured"));
        } else if !res.has_db {
            return Err(refuse("compute_tray_backend is 'rms' but database pool is not configured"));
        },
        ComputeBackend::Core => if !res.has_redfish_pool {
            return Err(refuse("compute_tray_backend is 'core' but Redfish client pool is not configured"));
        },
        ComputeBackend::Mock => {},
    }
    Ok(())
}

/// Build the component manager from configuration: after the rack-profile
/// check (whose outcome is passed in), each component type gets the backend
/// its selector names, unless a prerequisite of that backend is missing; the
/// first missing prerequisite, switches first, refuses the configuration.
/// Connecting to an NSM or PSM endpoint is left to the caller.
pub fn build_component_manager(
    config: &ComponentManagerConfig,
    rack_profiles_check: Result<(), ComponentManagerError>,
    resources: &BackendResources,
) -> (r: Result<ComponentManager<NvSwitchBackend, PowerShelfBackend, ComputeBackend>, ComponentManagerError>)
    ensures
        rack_profiles_check matches Err(e) ==> (r matches Err(f) && f == e),
        rack_profiles_check is Ok ==> (r is Ok <==> configuration_refusal(*config, *resources) is None),
        rack_profiles_check is Ok ==> (r matches Err(e) ==> configuration_refusal(*config, *resources) matches Some(m)
            && (e matches ComponentManagerError::InvalidArgument(t) && t@ == m)),
        r matches Ok(m) ==> m.nv_switch == config.nv_switch_backend
            && m.power_shelf == config.power_shelf_backend
            && m.compute_tray == config.compute_tray_backend
            && m.nv_switch_use_state_controller == config.nv_switch_use_state_controller
            && m.power_shelf_use_state_controller == config.power_shelf_use_state_controller
            && m.compute_tray_use_state_controller == config.compute_tray_use_state_controller,
{
    match rack_profiles_check {
        Err(e) => return Err(e),
        Ok(()) => {},
    }
    match check_nv_switch(config, resources) {
        Err(e) => return Err(e),
        Ok(()) => {},
    }
    match check_power_shelf(config, resources) {
        Err(e) => return Err(e),
        Ok(()) => {},
    }
    match check_compute_tray(config, resources) {
        Err(e) => return Err(e),
        Ok(()) => {},
    }
    Ok(ComponentManager::new(
        config.nv_switch_backend,
        config.power_shelf_backend,
        config.compute_tray_backend,
        config.nv_switch_use_state_controller,
        config.power_shelf_use_state_controller,
        config.compute_tray_use_state_controller,
    ))
}

} // verus!
