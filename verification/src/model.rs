//! The records the partition engine reads: NMX-C partitions, the partitions
//! and logical partitions kept in the database, and the managed hosts with
//! their NvLink GPUs and instance configuration.
//!
//! Identifiers that are UUIDs elsewhere (domains, logical partitions,
//! database partitions, machines, instances) are held as 128-bit integers.

use vstd::prelude::*;
use crate::seqs::copy_u64s;

verus! {

/// The nil UUID, the default value of every UUID-shaped identifier.
pub const NIL_ID: u128 = 0;

/// An NMX-C partition id.
#[derive(Clone, Copy, PartialEq, Eq, Structural, Debug)]
pub struct PartitionId {
    pub partition_id: u32,
}

impl PartitionId {
    /// The default id (zero).
    pub fn default_id() -> (p: PartitionId)
        ensures
            p.partition_id == 0,
    {
        PartitionId { partition_id: 0 }
    }
}

/// A partition as NMX-C reports it.
#[derive(Debug)]
pub struct PartitionInfo {
    pub partition_id: Option<PartitionId>,
    pub name: String,
    pub gpu_uid_list: Vec<u64>,
}

pub struct PartitionInfoView {
    pub partition_id: Option<PartitionId>,
    pub name: Seq<char>,
    pub gpu_uid_list: Seq<u64>,
}

impl View for PartitionInfo {
    type V = PartitionInfoView;

    open spec fn view(&self) -> PartitionInfoView {
        PartitionInfoView {
            partition_id: self.partition_id,
            name: self.name@,
            gpu_uid_list: self.gpu_uid_list@,
        }
    }
}

impl DeepView for PartitionInfo {
    type V = PartitionInfoView;

    open spec fn deep_view(&self) -> PartitionInfoView {
        self@
    }
}

impl PartitionInfo {
    pub fn duplicate(&self) -> (r: PartitionInfo)
        ensures
            r@ == self@,
    {
        PartitionInfo {
            partition_id: self.partition_id,
            name: self.name.clone(),
            gpu_uid_list: copy_u64s(&self.gpu_uid_list),
        }
    }
}

/// A physical NvLink partition as recorded in the database.
#[derive(Debug)]
pub struct NvlPartition {
    pub id: u128,
    pub logical_partition_id: Option<u128>,
    pub name: String,
    pub domain_uuid: u128,
    /// The NMX-C partition id, as decimal text.
    pub nmx_m_id: String,
}

pub struct NvlPartitionView {
    pub id: u128,
    pub logical_partition_id: Option<u128>,
    pub name: Seq<char>,
    pub domain_uuid: u128,
    pub nmx_m_id: Seq<char>,
}

impl View for NvlPartition {
    type V = NvlPartitionView;

    open spec fn view(&self) -> NvlPartitionView {
        NvlPartitionView {
            id: self.id,
            logical_partition_id: self.logical_partition_id,
            name: self.name@,
            domain_uuid: self.domain_uuid,
            nmx_m_id: self.nmx_m_id@,
        }
    }
}

impl DeepView for NvlPartition {
    type V = NvlPartitionView;

    open spec fn deep_view(&self) -> NvlPartitionView {
        self@
    }
}

impl NvlPartition {
    pub fn duplicate(&self) -> (r: NvlPartition)
        ensures
            r@ == self@,
    {
        NvlPartition {
            id: self.id,
            logical_partition_id: self.logical_partition_id,
            name: self.name.clone(),
            domain_uuid: self.domain_uuid,
            nmx_m_id: self.nmx_m_id.clone(),
        }
    }
}

/// A tenant's logical partition as recorded in the database.
#[derive(Clone, Copy, PartialEq, Eq, Structural, Debug)]
pub struct LogicalPartition {
    pub id: u128,
    /// Set once the tenant has asked for the logical partition to be deleted.
    pub marked_as_deleted: bool,
}

impl DeepView for LogicalPartition {
    type V = LogicalPartition;

    open spec fn deep_view(&self) -> LogicalPartition {
        *self
    }
}

/// A GPU on a machine's NvLink fabric.
#[derive(Clone, Copy, PartialEq, Eq, Structural, Debug)]
pub struct NvLinkGpu {
    pub guid: u64,
    /// One-based device index on the machine.
    pub device_id: u32,
}

/// NvLink facts a machine reported.
#[derive(Debug)]
pub struct MachineNvLinkInfo {
    pub domain_uuid: u128,
    pub chassis_serial: String,
    pub gpus: Vec<NvLinkGpu>,
}

pub struct MachineNvLinkInfoView {
    pub domain_uuid: u128,
    pub chassis_serial: Seq<char>,
    pub gpus: Seq<NvLinkGpu>,
}

impl View for MachineNvLinkInfo {
    type V = MachineNvLinkInfoView;

    open spec fn view(&self) -> MachineNvLinkInfoView {
        MachineNvLinkInfoView {
            domain_uuid: self.domain_uuid,
            chassis_serial: self.chassis_serial@,
            gpus: self.gpus@,
        }
    }
}

impl DeepView for MachineNvLinkInfo {
    type V = MachineNvLinkInfoView;

    open spec fn deep_view(&self) -> MachineNvLinkInfoView {
        self@
    }
}

impl MachineNvLinkInfo {
    pub fn duplicate(&self) -> (r: MachineNvLinkInfo)
        ensures
            r@ == self@,
    {
        let mut gpus: Vec<NvLinkGpu> = Vec::new();
        let mut i: usize = 0;
        while i < self.gpus.len()
            invariant
                i <= self.gpus@.len(),
                gpus@ == self.gpus@.subrange(0, i as int),
            decreases self.gpus@.len() - i,
        {
            gpus.push(self.gpus[i]);
            i = i + 1;
            assert(gpus@ =~= self.gpus@.subrange(0, i as int));
        }
        assert(self.gpus@.subrange(0, self.gpus@.len() as int) =~= self.gpus@);
        MachineNvLinkInfo {
            domain_uuid: self.domain_uuid,
            chassis_serial: self.chassis_serial.clone(),
            gpus,
        }
    }
}

/// An instance's wish for one GPU: the logical partition it should be in, if any.
#[derive(Clone, Copy, PartialEq, Eq, Structural, Debug)]
pub struct GpuConfig {
    /// Zero-based device index on the machine.
    pub device_instance: u32,
    pub logical_partition_id: Option<u128>,
}

/// A tenant instance running on a machine, with its NvLink configuration.
#[derive(Debug)]
pub struct Instance {
    pub id: u128,
    pub machine_id: u128,
    pub gpu_configs: Vec<GpuConfig>,
}

pub struct HostSnapshot {
    pub id: u128,
    pub nvlink_info: Option<MachineNvLinkInfo>,
}

#[derive(Clone, Copy, PartialEq, Eq, Structural, Debug)]
pub struct DpuSnapshot {
    pub use_admin_network: Option<bool>,
}

/// A managed host: the host machine, its instance if one runs there, and its DPUs.
pub struct ManagedHostSnapshot {
    pub host_snapshot: HostSnapshot,
    pub instance: Option<Instance>,
    pub dpu_snapshots: Vec<DpuSnapshot>,
}

pub struct InstanceView {
    pub id: u128,
    pub machine_id: u128,
    pub gpu_configs: Seq<GpuConfig>,
}

pub struct ManagedHostView {
    pub host_id: u128,
    pub nvlink_info: Option<MachineNvLinkInfoView>,
    pub instance: Option<InstanceView>,
    pub dpu_snapshots: Seq<DpuSnapshot>,
}

impl Instance {
    pub fn duplicate(&self) -> (r: Instance)
        ensures
            r@ == self@,
    {
        let mut gpu_configs: Vec<GpuConfig> = Vec::new();
        let mut i: usize = 0;
        while i < self.gpu_configs.len()
            invariant
                i <= self.gpu_configs@.len(),
                gpu_configs@ == self.gpu_configs@.subrange(0, i as int),
            decreases self.gpu_configs@.len() - i,
        {
            gpu_configs.push(self.gpu_configs[i]);
            i = i + 1;
            assert(gpu_configs@ =~= self.gpu_configs@.subrange(0, i as int));
        }
        assert(self.gpu_configs@.subrange(0, self.gpu_configs@.len() as int) =~= self.gpu_configs@);
        Instance { id: self.id, machine_id: self.machine_id, gpu_configs }
    }
}

impl ManagedHostSnapshot {
    pub fn duplicate(&self) -> (r: ManagedHostSnapshot)
        ensures
            r@ == self@,
    {
        let nvlink_info = match &self.host_snapshot.nvlink_info {
            Some(i) => Some(i.duplicate()),
            None => None,
        };
        let instance = match &self.instance {
            Some(i) => Some(i.duplicate()),
            None => None,
        };
        let mut dpus: Vec<DpuSnapshot> = Vec::new();
        let mut k: usize = 0;
        while k < self.dpu_snapshots.len()
            invariant
                k <= self.dpu_snapshots@.len(),
                dpus@ == self.dpu_snapshots@.subrange(0, k as int),
            decreases self.dpu_snapshots@.len() - k,
        {
            dpus.push(self.dpu_snapshots[k]);
            k = k + 1;
            assert(dpus@ =~= self.dpu_snapshots@.subrange(0, k as int));
        }
        assert(self.dpu_snapshots@.subrange(0, self.dpu_snapshots@.len() as int) =~= self.dpu_snapshots@);
        ManagedHostSnapshot {
            host_snapshot: HostSnapshot { id: self.host_snapshot.id, nvlink_info },
            instance,
            dpu_snapshots: dpus,
        }
    }
}

impl View for Instance {
    type V = InstanceView;

    open spec fn view(&self) -> InstanceView {
        InstanceView { id: self.id, machine_id: self.machine_id, gpu_configs: self.gpu_configs@ }
    }
}

impl View for ManagedHostSnapshot {
    type V = ManagedHostView;

    open spec fn view(&self) -> ManagedHostView {
        ManagedHostView {
            host_id: self.host_snapshot.id,
            nvlink_info: match &self.host_snapshot.nvlink_info {
                Some(i) => Some(i@),
                None => None,
            },
            instance: match &self.instance {
                Some(i) => Some(i@),
                None => None,
            },
            dpu_snapshots: self.dpu_snapshots@,
        }
    }
}

impl DeepView for ManagedHostSnapshot {
    type V = ManagedHostView;

    open spec fn deep_view(&self) -> ManagedHostView {
        self@
    }
}

/// What was observed of one GPU of an instance.
#[derive(Debug)]
pub struct MachineNvLinkGpuStatusObservation {
    pub device_instance: u32,
    pub domain_id: u128,
    /// The GPU's guid as decimal text.
    pub gpu_id: String,
    pub guid: u64,
    pub logical_partition_id: Option<u128>,
    pub partition_id: Option<u128>,
}

pub struct GpuObservationView {
    pub device_instance: u32,
    pub domain_id: u128,
    pub gpu_id: Seq<char>,
    pub guid: u64,
    pub logical_partition_id: Option<u128>,
    pub partition_id: Option<u128>,
}

impl View for MachineNvLinkGpuStatusObservation {
    type V = GpuObservationView;

    open spec fn view(&self) -> GpuObservationView {
        GpuObservationView {
            device_instance: self.device_instance,
            domain_id: self.domain_id,
            gpu_id: self.gpu_id@,
            guid: self.guid,
            logical_partition_id: self.logical_partition_id,
            partition_id: self.partition_id,
        }
    }
}

impl DeepView for MachineNvLinkGpuStatusObservation {
    type V = GpuObservationView;

    open spec fn deep_view(&self) -> GpuObservationView {
        self@
    }
}

/// What was observed of an instance's GPUs at one moment (milliseconds since the epoch).
#[derive(Debug)]
pub struct MachineNvLinkStatusObservation {
    pub observed_at: i64,
    pub nvlink_gpus: Vec<MachineNvLinkGpuStatusObservation>,
}

pub struct StatusObservationView {
    pub observed_at: i64,
    pub nvlink_gpus: Seq<GpuObservationView>,
}

impl View for MachineNvLinkStatusObservation {
    type V = StatusObservationView;

    open spec fn view(&self) -> StatusObservationView {
        StatusObservationView { observed_at: self.observed_at, nvlink_gpus: self.nvlink_gpus.deep_view() }
    }
}

impl DeepView for MachineNvLinkStatusObservation {
    type V = StatusObservationView;

    open spec fn deep_view(&self) -> StatusObservationView {
        self@
    }
}

} // verus!
