//! The reconciliation pass: compare what NMX-C holds with what each instance
//! asks for, GPU by GPU, and queue the NMX-C operations that close the gap.

use vstd::prelude::*;
use crate::config::NvLinkConfig;
use crate::context::{GpuCtxView, GpuProcessingContext, PartitionProcessingContext, PpcView};
use crate::keyed::{KeyedVec, KeyedView, lemma_insert_get};
use crate::model::{
    GpuConfig, GpuObservationView, Instance, InstanceView, MachineNvLinkGpuStatusObservation,
    MachineNvLinkInfo, MachineNvLinkInfoView, MachineNvLinkStatusObservation, ManagedHostSnapshot,
    ManagedHostView, NvLinkGpu, NvlPartitionView, PartitionId, PartitionInfo, PartitionInfoView,
    StatusObservationView, DpuSnapshot,
};
use crate::operation::{NmxcPartitionOperation, NmxcPartitionOperationType, NvLinkManagerError, OpView, join_first, upsert_covering};
use crate::seqs::{copy_u64s, find_first, lemma_find_first, lemma_find_first_is, lemma_find_first_none};
use crate::text::{contains_text, decimal_text, parse_u32_text, text_contains, u32_text, u64_text};
use crate::time::Duration;

verus! {

/// The NMX-C id of the partition that holds GPUs not assigned to any tenant partition.
pub const NMX_C_DEFAULT_PARTITION_ID: u32 = 32766;

/// What the engine does with one GPU.
#[derive(Clone, Copy, PartialEq, Eq, Structural, Debug)]
pub enum GpuAction {
    AddToPartition,
    RemoveFromPartition,
    RemoveFromUnknownPartition,
    NoOp,
}

/// Whether NMX-C partition `p` is the default partition: id 32766, or "Default" in its name.
pub open spec fn is_default_partition(p: PartitionInfoView) -> bool {
    (match p.partition_id {
        Some(id) => id.partition_id == NMX_C_DEFAULT_PARTITION_ID,
        None => false,
    }) || contains_text(p.name, "Default"@)
}

/// Whether `partition` is the NMX-C default partition.
pub fn is_nmx_c_default_partition(partition: &PartitionInfo) -> (b: bool)
    ensures
        b == is_default_partition(partition@),
{
    let id_is_default = match partition.partition_id {
        Some(id) => id.partition_id == NMX_C_DEFAULT_PARTITION_ID,
        None => false,
    };
    id_is_default || text_contains(partition.name.as_str(), "Default")
}

pub open spec fn partition_id_text(p: PartitionInfoView) -> Seq<char> {
    match p.partition_id {
        Some(id) => decimal_text(id.partition_id as nat),
        None => Seq::empty(),
    }
}

/// The NMX-C id of `pi` as decimal text; empty when it has none.
pub fn nmx_c_partition_id_string(pi: &PartitionInfo) -> (s: String)
    ensures
        s@ == partition_id_text(pi@),
{
    match pi.partition_id {
        Some(id) => u32_text(id.partition_id),
        None => String::new(),
    }
}

pub open spec fn config_for_device(di: u32) -> spec_fn(GpuConfig) -> bool {
    |c: GpuConfig| c.device_instance == di
}

/// The instance's configuration of device `di`, the first one if several.
pub open spec fn gpu_config_for(cfgs: Seq<GpuConfig>, di: u32) -> Option<GpuConfig> {
    match find_first(cfgs, config_for_device(di)) {
        Some(i) => Some(cfgs[i]),
        None => None,
    }
}

fn find_gpu_config(cfgs: &Vec<GpuConfig>, di: u32) -> (r: Option<GpuConfig>)
    ensures
        r == gpu_config_for(cfgs@, di),
{
    let mut i: usize = 0;
    while i < cfgs.len()
        invariant
            i <= cfgs@.len(),
            forall|j: int| 0 <= j < i ==> !(#[trigger] config_for_device(di)(cfgs@[j])),
        decreases cfgs@.len() - i,
    {
        if cfgs[i].device_instance == di {
            proof {
                lemma_find_first_is(cfgs@, config_for_device(di), i as int);
            }
            return Some(cfgs[i]);
        }
        i = i + 1;
    }
    proof {
        lemma_find_first_none(cfgs@, config_for_device(di));
    }
    None
}

/// The decision taken for one GPU: whether to skip it altogether (no
/// observation), the action, the GPU's context and its observation.
pub struct GpuDecision {
    pub skip: bool,
    pub action: GpuAction,
    pub g: GpuCtxView,
    pub obs: GpuObservationView,
}

/// Decide what to do with `gpu` of instance `inst`, given what NMX-C and the database hold.
///
/// A GPU in a partition the database knows is removed from it when the
/// instance wants it elsewhere or nowhere. A GPU in a partition the database
/// does not know is removed from it, except from the default partition when
/// the instance has no wish for it. A GPU in no partition is added to the
/// logical partition the instance asks for.
pub open spec fn decide_gpu(
    ctx: PpcView,
    inst: InstanceView,
    info: MachineNvLinkInfoView,
    gpu: NvLinkGpu,
) -> GpuDecision {
    let di = (gpu.device_id - 1) as u32;
    let cfg = gpu_config_for(inst.gpu_configs, di);
    let obs0 = GpuObservationView {
        device_instance: di,
        domain_id: info.domain_uuid,
        gpu_id: decimal_text(gpu.guid as nat),
        guid: gpu.guid,
        logical_partition_id: None,
        partition_id: None,
    };
    let g0 = GpuCtxView {
        gpu_guid: gpu.guid,
        domain_uuid: info.domain_uuid,
        logical_partition_id: None,
        partition_id: None,
        partition_name: Seq::empty(),
        partition_nmx_c_id: PartitionId { partition_id: 0 },
    };
    match ctx.gpu_map.get(gpu.guid) {
        Some(np) => {
            let pid = match np.partition_id {
                Some(id) => id.partition_id,
                None => 0,
            };
            match ctx.db_partitions.get(pid) {
                Some(p) => GpuDecision {
                    skip: cfg is Some && p.logical_partition_id is None,
                    action: match cfg {
                        Some(c) => if c.logical_partition_id != p.logical_partition_id {
                            GpuAction::RemoveFromPartition
                        } else {
                            GpuAction::NoOp
                        },
                        None => GpuAction::RemoveFromPartition,
                    },
                    g: GpuCtxView {
                        logical_partition_id: p.logical_partition_id,
                        partition_id: Some(p.id),
                        partition_name: p.name,
                        partition_nmx_c_id: PartitionId { partition_id: pid },
                        ..g0
                    },
                    obs: GpuObservationView {
                        logical_partition_id: p.logical_partition_id,
                        partition_id: Some(p.id),
                        ..obs0
                    },
                },
                None => if is_default_partition(np) && cfg is None {
                    GpuDecision { skip: false, action: GpuAction::NoOp, g: g0, obs: obs0 }
                } else {
                    GpuDecision {
                        skip: false,
                        action: GpuAction::RemoveFromUnknownPartition,
                        g: GpuCtxView { partition_nmx_c_id: PartitionId { partition_id: pid }, ..g0 },
                        obs: obs0,
                    }
                },
            }
        },
        None => match cfg {
            Some(c) => if c.logical_partition_id is Some {
                GpuDecision {
                    skip: false,
                    action: GpuAction::AddToPartition,
                    g: GpuCtxView { logical_partition_id: c.logical_partition_id, ..g0 },
                    obs: obs0,
                }
            } else {
                GpuDecision { skip: false, action: GpuAction::NoOp, g: g0, obs: obs0 }
            },
            None => GpuDecision { skip: false, action: GpuAction::NoOp, g: g0, obs: obs0 },
        },
    }
}

pub open spec fn in_logical_partition_and_domain(lp: Option<u128>, d: u128) -> spec_fn(NvlPartitionView) -> bool {
    |p: NvlPartitionView| p.logical_partition_id == lp && p.domain_uuid == d
}

/// The first database partition of logical partition `lp` in domain `d`.
pub open spec fn partition_for(ctx: PpcView, lp: Option<u128>, d: u128) -> Option<int> {
    find_first(ctx.db_partitions.vals, in_logical_partition_and_domain(lp, d))
}

/// Carry out decision `dec` for `gpu`.
pub open spec fn apply_gpu(ctx: PpcView, info: MachineNvLinkInfoView, gpu: NvLinkGpu, dec: GpuDecision) -> PpcView {
    let g = dec.g;
    if dec.skip {
        ctx
    } else if (match g.logical_partition_id {
        Some(l) => !ctx.logical_partition_usable(l),
        None => false,
    }) {
        ctx
    } else {
        match dec.action {
            GpuAction::AddToPartition => match partition_for(ctx, g.logical_partition_id, info.domain_uuid) {
                Some(i) => {
                    let p = ctx.db_partitions.vals[i];
                    if ctx.addition_to_existing_fails(g, p) {
                        ctx
                    } else {
                        ctx.after_addition_to_existing(g, p)
                    }
                },
                None => if g.logical_partition_id is None {
                    ctx
                } else {
                    ctx.after_addition_to_new(g)
                },
            },
            GpuAction::RemoveFromPartition => match ctx.keep_after_removal(
                g.logical_partition_id,
                g.partition_nmx_c_id.partition_id,
                gpu.guid,
            ) {
                Some(k) => if g.logical_partition_id is None {
                    ctx
                } else {
                    ctx.after_gpu_removal(g, k)
                },
                None => ctx,
            },
            GpuAction::RemoveFromUnknownPartition => match ctx.keep_in_unknown_after_removal(
                g.partition_nmx_c_id.partition_id,
                gpu.guid,
            ) {
                Some(k) => ctx.after_unknown_removal(g.partition_nmx_c_id.partition_id, gpu.guid, k),
                None => ctx,
            },
            GpuAction::NoOp => ctx,
        }
    }
}

/// Process one GPU: the new state and the GPU's observation, if any.
pub open spec fn gpu_step(ctx: PpcView, inst: InstanceView, info: MachineNvLinkInfoView, gpu: NvLinkGpu) -> (PpcView, Option<GpuObservationView>) {
    let dec = decide_gpu(ctx, inst, info, gpu);
    (apply_gpu(ctx, info, gpu, dec), if dec.skip {
        None
    } else {
        Some(dec.obs)
    })
}

/// Process the GPUs of an instance's machine in order.
pub open spec fn fold_gpus(ctx: PpcView, inst: InstanceView, info: MachineNvLinkInfoView, gpus: Seq<NvLinkGpu>) -> (PpcView, Seq<GpuObservationView>)
    decreases gpus.len(),
{
    if gpus.len() == 0 {
        (ctx, Seq::empty())
    } else {
        let (c, obs) = fold_gpus(ctx, inst, info, gpus.drop_last());
        let (c2, o) = gpu_step(c, inst, info, gpus.last());
        (c2, match o {
            Some(x) => obs.push(x),
            None => obs,
        })
    }
}

/// Whether a DPU of the host puts it on the admin network (an unknown setting counts as yes).
pub open spec fn on_admin_network(dpus: Seq<DpuSnapshot>) -> bool {
    exists|i: int| 0 <= i < dpus.len() && (match #[trigger] dpus[i].use_admin_network {
        Some(b) => b,
        None => true,
    })
}

/// The first NMX-C partition that is the default partition.
pub open spec fn default_partition(ctx: PpcView) -> Option<PartitionInfoView> {
    match find_first(ctx.nmx_c_partitions.vals, |p: PartitionInfoView| is_default_partition(p)) {
        Some(i) => Some(ctx.nmx_c_partitions.vals[i]),
        None => None,
    }
}

/// For a host without instance: take GPU `gpu` out of its tenant partition,
/// or, when it is in no partition, queue adding it to the default partition.
pub open spec fn release_gpu(ctx: PpcView, info: MachineNvLinkInfoView, gpu: NvLinkGpu) -> PpcView {
    match ctx.gpu_map.get(gpu.guid) {
        None => match default_partition(ctx) {
            Some(dp) => match dp.partition_id {
                Some(pid) => ctx.after_unknown_addition(pid.partition_id, gpu.guid, dp.gpu_uid_list),
                None => ctx,
            },
            None => ctx,
        },
        Some(np) => {
            let pid = match np.partition_id {
                Some(id) => id.partition_id,
                None => 0,
            };
            match ctx.db_partitions.get(pid) {
                None => ctx,
                Some(p) => {
                    let g = GpuCtxView {
                        gpu_guid: gpu.guid,
                        domain_uuid: info.domain_uuid,
                        logical_partition_id: p.logical_partition_id,
                        partition_id: Some(p.id),
                        partition_name: p.name,
                        partition_nmx_c_id: PartitionId { partition_id: pid },
                    };
                    match ctx.keep_after_removal(p.logical_partition_id, pid, gpu.guid) {
                        Some(k) => ctx.after_gpu_removal(g, k),
                        None => ctx,
                    }
                },
            }
        },
    }
}

pub open spec fn release_gpus(ctx: PpcView, info: MachineNvLinkInfoView, gpus: Seq<NvLinkGpu>) -> PpcView
    decreases gpus.len(),
{
    if gpus.len() == 0 {
        ctx
    } else {
        release_gpu(release_gpus(ctx, info, gpus.drop_last()), info, gpus.last())
    }
}

/// For a host without instance on the admin network: release all its GPUs.
pub open spec fn release_host(ctx: PpcView, mh: ManagedHostView) -> PpcView {
    if !on_admin_network(mh.dpu_snapshots) {
        ctx
    } else {
        match mh.nvlink_info {
            Some(info) => release_gpus(ctx, info, info.gpus),
            None => ctx,
        }
    }
}

pub open spec fn empty_observation(now: i64) -> StatusObservationView {
    StatusObservationView { observed_at: now, nvlink_gpus: Seq::empty() }
}

/// Process one managed host.
pub open spec fn machine_step(
    ctx: PpcView,
    statuses: KeyedView<u128, StatusObservationView>,
    mh: ManagedHostView,
    now: i64,
) -> (PpcView, KeyedView<u128, StatusObservationView>) {
    match mh.instance {
        None => (release_host(ctx, mh), statuses),
        Some(inst) => match ctx.machine_nvlink_info.get(inst.machine_id) {
            Some(Some(info)) => {
                let (c, obs) = fold_gpus(ctx, inst, info, info.gpus);
                (c, statuses.insert(inst.machine_id, StatusObservationView { observed_at: now, nvlink_gpus: obs }))
            },
            _ => (ctx, statuses.insert(inst.machine_id, empty_observation(now))),
        },
    }
}

pub open spec fn fold_machines(
    ctx: PpcView,
    mhs: Seq<ManagedHostView>,
    now: i64,
) -> (PpcView, KeyedView<u128, StatusObservationView>)
    decreases mhs.len(),
{
    if mhs.len() == 0 {
        (ctx, KeyedView::empty())
    } else {
        let (c, s) = fold_machines(ctx, mhs.drop_last(), now);
        machine_step(c, s, mhs.last(), now)
    }
}

pub open spec fn flatten(lists: Seq<Seq<OpView>>) -> Seq<OpView>
    decreases lists.len(),
{
    if lists.len() == 0 {
        Seq::empty()
    } else {
        flatten(lists.drop_last()) + lists.last()
    }
}

/// All queued operations on partitions the database does not know, removals first.
pub open spec fn unknown_operations(ctx: PpcView) -> Seq<OpView> {
    flatten(ctx.unknown_removals.vals) + ctx.unknown_additions.vals
}

/// Append the operations on unknown partitions to those of the nil logical partition.
pub open spec fn merge_unknown(ctx: PpcView) -> PpcView {
    let extra = unknown_operations(ctx);
    if extra.len() == 0 {
        ctx
    } else {
        let base = match ctx.ops.get(0) {
            Some(l) => l,
            None => Seq::empty(),
        };
        PpcView { ops: ctx.ops.insert(0, base + extra), ..ctx }
    }
}

/// The whole pass over the managed hosts `mhs`.
pub open spec fn check_partitions(ctx: PpcView, mhs: Seq<ManagedHostView>, now: i64) -> (PpcView, KeyedView<u128, StatusObservationView>) {
    let (c, s) = fold_machines(ctx, mhs, now);
    (merge_unknown(c), s)
}

/// The GPU device ids the pass reads are one-based.
pub open spec fn device_ids_valid(ctx: PpcView, mhs: Seq<ManagedHostView>) -> bool {
    forall|i: int|
        0 <= i < mhs.len() ==> match (#[trigger] mhs[i]).instance {
            Some(inst) => info_device_ids_valid(ctx.machine_nvlink_info.get(inst.machine_id)),
            None => true,
        }
}

pub open spec fn info_device_ids_valid(info: Option<Option<MachineNvLinkInfoView>>) -> bool {
    match info {
        Some(Some(info)) => forall|j: int| 0 <= j < info.gpus.len() ==> (#[trigger] info.gpus[j]).device_id >= 1,
        _ => true,
    }
}

pub open spec fn same_tables(a: PpcView, b: PpcView) -> bool {
    &&& a.nmx_c_partitions == b.nmx_c_partitions
    &&& a.logical_partitions == b.logical_partitions
    &&& a.db_partitions == b.db_partitions
    &&& a.machine_nvlink_info == b.machine_nvlink_info
    &&& a.gpu_map == b.gpu_map
}

fn same_lp(a: Option<u128>, b: Option<u128>) -> (r: bool)
    ensures
        r == (a == b),
{
    match (a, b) {
        (Some(x), Some(y)) => x == y,
        (None, None) => true,
        _ => false,
    }
}

/// The current time in milliseconds since the epoch, from `chrono::Utc::now`.
/// Nothing is stated of the value: it is whatever the clock says.
#[verifier::external_body]
fn current_time_millis() -> i64 {
    chrono::Utc::now().timestamp_millis()
}

/// The NMX-C id of a partition NMX-C reports (zero when it carries none).
pub open spec fn nmx_id(np: PartitionInfoView) -> u32 {
    match np.partition_id {
        Some(id) => id.partition_id,
        None => 0,
    }
}

/// GPU `gpu` of instance `inst` is where the instance's configuration wants
/// it: in a partition of the logical partition asked for; idle in the
/// default partition when nothing is asked for it; or in no partition when
/// no logical partition is asked for it.
pub open spec fn gpu_settled(ctx: PpcView, inst: InstanceView, gpu: NvLinkGpu) -> bool {
    let cfg = gpu_config_for(inst.gpu_configs, (gpu.device_id - 1) as u32);
    match ctx.gpu_map.get(gpu.guid) {
        Some(np) => match ctx.db_partitions.get(nmx_id(np)) {
            Some(p) => cfg matches Some(c) && c.logical_partition_id == p.logical_partition_id,
            None => is_default_partition(np) && cfg is None,
        },
        None => match cfg {
            Some(c) => c.logical_partition_id is None,
            None => true,
        },
    }
}

/// GPU `gpu` of a host without instance is settled: it is in a partition
/// that belongs to no tenant, or it is in none and there is no default
/// partition to return it to.
pub open spec fn idle_gpu_settled(ctx: PpcView, gpu: NvLinkGpu) -> bool {
    match ctx.gpu_map.get(gpu.guid) {
        Some(np) => ctx.db_partitions.get(nmx_id(np)) is None,
        None => match default_partition(ctx) {
            Some(dp) => dp.partition_id is None,
            None => true,
        },
    }
}

/// Every GPU the pass looks at on host `mh` is settled.
pub open spec fn host_settled(ctx: PpcView, mh: ManagedHostView) -> bool {
    match mh.instance {
        None => !on_admin_network(mh.dpu_snapshots) || match mh.nvlink_info {
            Some(info) => forall|j: int| 0 <= j < info.gpus.len() ==> idle_gpu_settled(ctx, #[trigger] info.gpus[j]),
            None => true,
        },
        Some(inst) => match ctx.machine_nvlink_info.get(inst.machine_id) {
            Some(Some(info)) => forall|j: int| 0 <= j < info.gpus.len() ==> gpu_settled(ctx, inst, #[trigger] info.gpus[j]),
            _ => true,
        },
    }
}

proof fn lemma_gpu_step_settled(ctx: PpcView, inst: InstanceView, info: MachineNvLinkInfoView, gpu: NvLinkGpu)
    requires
        gpu_settled(ctx, inst, gpu),
    ensures
        gpu_step(ctx, inst, info, gpu).0 == ctx,
{
}

proof fn lemma_fold_gpus_settled(ctx: PpcView, inst: InstanceView, info: MachineNvLinkInfoView, gpus: Seq<NvLinkGpu>)
    requires
        forall|j: int| 0 <= j < gpus.len() ==> gpu_settled(ctx, inst, #[trigger] gpus[j]),
    ensures
        fold_gpus(ctx, inst, info, gpus).0 == ctx,
    decreases gpus.len(),
{
    if gpus.len() > 0 {
        let rest = gpus.drop_last();
        assert forall|j: int| 0 <= j < rest.len() implies gpu_settled(ctx, inst, #[trigger] rest[j]) by {
            assert(rest[j] == gpus[j]);
        }
        lemma_fold_gpus_settled(ctx, inst, info, rest);
        assert(gpu_settled(ctx, inst, gpus[gpus.len() - 1]));
        lemma_gpu_step_settled(ctx, inst, info, gpus.last());
    }
}

proof fn lemma_release_gpus_settled(ctx: PpcView, info: MachineNvLinkInfoView, gpus: Seq<NvLinkGpu>)
    requires
        forall|j: int| 0 <= j < gpus.len() ==> idle_gpu_settled(ctx, #[trigger] gpus[j]),
    ensures
        release_gpus(ctx, info, gpus) == ctx,
    decreases gpus.len(),
{
    if gpus.len() > 0 {
        let rest = gpus.drop_last();
        assert forall|j: int| 0 <= j < rest.len() implies idle_gpu_settled(ctx, #[trigger] rest[j]) by {
            assert(rest[j] == gpus[j]);
        }
        lemma_release_gpus_settled(ctx, info, rest);
        assert(idle_gpu_settled(ctx, gpus[gpus.len() - 1]));
    }
}

proof fn lemma_fold_machines_settled(ctx: PpcView, mhs: Seq<ManagedHostView>, now: i64)
    requires
        forall|i: int| 0 <= i < mhs.len() ==> host_settled(ctx, #[trigger] mhs[i]),
    ensures
        fold_machines(ctx, mhs, now).0 == ctx,
    decreases mhs.len(),
{
    if mhs.len() > 0 {
        let rest = mhs.drop_last();
        assert forall|i: int| 0 <= i < rest.len() implies host_settled(ctx, #[trigger] rest[i]) by {
            assert(rest[i] == mhs[i]);
        }
        lemma_fold_machines_settled(ctx, rest, now);
        let mh = mhs.last();
        assert(host_settled(ctx, mhs[mhs.len() - 1]));
        match mh.instance {
            None => {
                if on_admin_network(mh.dpu_snapshots) {
                    match mh.nvlink_info {
                        Some(info) => lemma_release_gpus_settled(ctx, info, info.gpus),
                        None => {},
                    }
                }
            },
            Some(inst) => match ctx.machine_nvlink_info.get(inst.machine_id) {
                Some(Some(info)) => lemma_fold_gpus_settled(ctx, inst, info, info.gpus),
                _ => {},
            },
        }
    }
}

/// Law: a pass over hosts whose GPUs are all where their instances want
/// them changes nothing: it queues no NMX-C operation.
pub proof fn lemma_settled_pass_changes_nothing(ctx: PpcView, mhs: Seq<ManagedHostView>, now: i64)
    requires
        ctx.wf(),
        ctx.unknown_removals.len() == 0,
        ctx.unknown_additions.len() == 0,
        forall|i: int| 0 <= i < mhs.len() ==> host_settled(ctx, #[trigger] mhs[i]),
    ensures
        check_partitions(ctx, mhs, now).0 == ctx,
{
    lemma_fold_machines_settled(ctx, mhs, now);
    assert(ctx.unknown_removals.vals =~= Seq::<Seq<OpView>>::empty());
    assert(ctx.unknown_additions.vals =~= Seq::<OpView>::empty());
    assert(unknown_operations(ctx) =~= Seq::<OpView>::empty());
}

/// Some operation of `list` has GPU `g` among its members.
pub open spec fn some_op_covers(list: Seq<OpView>, g: u64) -> bool {
    exists|k: int| 0 <= k < list.len() && (#[trigger] list[k]).gpu_uids.contains(g)
}

proof fn lemma_join_first_covers(list: Seq<OpView>, p: spec_fn(OpView) -> bool, g: u64, op: OpView)
    requires
        op.gpu_uids.contains(g),
    ensures
        some_op_covers(join_first(list, p, g, op), g),
{
    lemma_find_first(list, p);
    let r = join_first(list, p, g, op);
    match find_first(list, p) {
        Some(i) => {
            assert(r[i].gpu_uids == list[i].gpu_uids.push(g));
            assert(r[i].gpu_uids[list[i].gpu_uids.len() as int] == g);
            assert(r[i].gpu_uids.contains(g));
        },
        None => {
            assert(r[list.len() as int] == op);
        },
    }
}

/// Law: a GPU in no partition whose instance asks for it in a usable logical
/// partition `l` is, after its step, a member of an operation queued under
/// `l`: one that creates a new partition, or one that adds it to the
/// partition of `l` its domain already has. The one failing input is left
/// out: a domain partition of `l` that NMX-C does not report.
pub proof fn lemma_asked_gpu_gets_covered(
    ctx: PpcView,
    inst: InstanceView,
    info: MachineNvLinkInfoView,
    gpu: NvLinkGpu,
    l: u128,
)
    requires
        ctx.wf(),
        ctx.gpu_map.get(gpu.guid) is None,
        gpu_config_for(inst.gpu_configs, (gpu.device_id - 1) as u32) matches Some(c) && c.logical_partition_id == Some(l),
        ctx.logical_partition_usable(l),
        partition_for(ctx, Some(l), info.domain_uuid) matches Some(i) ==> ctx.nmx_c_partitions.get(
            parse_u32_text(ctx.db_partitions.vals[i].nmx_m_id).unwrap(),
        ) is Some,
    ensures
        gpu_step(ctx, inst, info, gpu).0.ops.get(l) matches Some(list) && some_op_covers(list, gpu.guid),
{
    let dec = decide_gpu(ctx, inst, info, gpu);
    let g = dec.g;
    assert(dec.action == GpuAction::AddToPartition);
    assert(g.logical_partition_id == Some(l));
    let list = ctx.ops.get(l);
    match partition_for(ctx, g.logical_partition_id, info.domain_uuid) {
        Some(i) => {
            let p = ctx.db_partitions.vals[i];
            let pid = parse_u32_text(p.nmx_m_id).unwrap();
            let op = ctx.join_existing_op(g, p, pid);
            let seq_g = ctx.nmx_c_partitions.get(pid).unwrap().gpu_uid_list;
            assert(op.gpu_uids == seq_g.push(gpu.guid));
            assert(op.gpu_uids[seq_g.len() as int] == gpu.guid);
            let merged = crate::context::queue(
                list,
                join_first(list.unwrap(), crate::operation::updates_partition(pid), gpu.guid, op),
                op,
            );
            match list {
                Some(x) => lemma_join_first_covers(x, crate::operation::updates_partition(pid), gpu.guid, op),
                None => assert(merged[0] == op),
            }
            lemma_insert_get(ctx.ops, l, merged, l);
        },
        None => {
            let op = crate::context::create_op(g, l);
            assert(op.gpu_uids[0] == gpu.guid);
            let merged = crate::context::queue(
                list,
                join_first(list.unwrap(), crate::operation::in_domain(g.domain_uuid), gpu.guid, op),
                op,
            );
            match list {
                Some(x) => lemma_join_first_covers(x, crate::operation::in_domain(g.domain_uuid), gpu.guid, op),
                None => assert(merged[0] == op),
            }
            lemma_insert_get(ctx.ops, l, merged, l);
        },
    }
}

/// Some operation of `list` rewrites NMX-C partition `pid` without GPU `g`.
pub open spec fn some_op_drops(list: Seq<OpView>, pid: u32, g: u64) -> bool {
    exists|k: int|
        0 <= k < list.len() && ((#[trigger] list[k]).operation_type == NmxcPartitionOperationType::Remove(pid)
            || list[k].operation_type == NmxcPartitionOperationType::Update(pid)) && !list[k].gpu_uids.contains(g)
}

proof fn lemma_upsert_drops(list: Seq<OpView>, g: u64, op: OpView, pid: u32)
    requires
        op.operation_type == NmxcPartitionOperationType::Remove(pid) || op.operation_type
            == NmxcPartitionOperationType::Update(pid),
        !op.gpu_uids.contains(g),
    ensures
        some_op_drops(upsert_covering(list, g, op, true), pid, g),
{
    lemma_find_first(list, crate::operation::covers_gpu(g));
    let r = upsert_covering(list, g, op, true);
    match find_first(list, crate::operation::covers_gpu(g)) {
        Some(i) => {
            assert(r[i].operation_type == op.operation_type && r[i].gpu_uids == op.gpu_uids);
        },
        None => {
            assert(r[list.len() as int] == op);
        },
    }
}

/// Law: a GPU in a partition of logical partition `l` that its instance no
/// longer wants there is, after its step, left out of an operation queued
/// under `l` that rewrites that partition (deleting it when the GPU was its
/// last member). Left out, as the pass skips them: a logical partition
/// marked as deleted, and a partition whose members cannot be found.
pub proof fn lemma_unwanted_gpu_gets_dropped(
    ctx: PpcView,
    inst: InstanceView,
    info: MachineNvLinkInfoView,
    gpu: NvLinkGpu,
    l: u128,
)
    requires
        ctx.wf(),
        ctx.gpu_map.get(gpu.guid) matches Some(np) && ctx.db_partitions.get(nmx_id(np)) matches Some(p)
            && p.logical_partition_id == Some(l),
        !(gpu_config_for(inst.gpu_configs, (gpu.device_id - 1) as u32) matches Some(c) && c.logical_partition_id == Some(l)),
        ctx.logical_partition_usable(l),
        ctx.keep_after_removal(Some(l), nmx_id(ctx.gpu_map.get(gpu.guid).unwrap()), gpu.guid) is Some,
    ensures
        gpu_step(ctx, inst, info, gpu).0.ops.get(l) matches Some(list) && some_op_drops(
            list,
            nmx_id(ctx.gpu_map.get(gpu.guid).unwrap()),
            gpu.guid,
        ),
{
    let np = ctx.gpu_map.get(gpu.guid).unwrap();
    let pid = nmx_id(np);
    let dec = decide_gpu(ctx, inst, info, gpu);
    let g = dec.g;
    assert(dec.action == GpuAction::RemoveFromPartition);
    assert(!dec.skip);
    assert(g.logical_partition_id == Some(l));
    assert(g.partition_nmx_c_id.partition_id == pid);
    let k = ctx.keep_after_removal(Some(l), pid, gpu.guid).unwrap();
    let op = crate::context::removal_op(g, k);
    let list = ctx.ops.get(l);
    // The members kept never include the GPU that leaves.
    let queued = match list {
        Some(x) => match find_first(x, crate::operation::covers_gpu(gpu.guid)) {
            Some(i) => Some(crate::seqs::without(x[i].gpu_uids, gpu.guid)),
            None => None,
        },
        None => None,
    };
    match queued {
        Some(q) => {
            let x = list.unwrap();
            let i = find_first(x, crate::operation::covers_gpu(gpu.guid)).unwrap();
            crate::seqs::lemma_without(x[i].gpu_uids, gpu.guid);
        },
        None => {
            crate::seqs::lemma_without(ctx.nmx_c_partitions.get(pid).unwrap().gpu_uid_list, gpu.guid);
        },
    }
    assert(!op.gpu_uids.contains(gpu.guid));
    let merged = crate::context::queue(list, upsert_covering(list.unwrap(), gpu.guid, op, true), op);
    match list {
        Some(x) => lemma_upsert_drops(x, gpu.guid, op, pid),
        None => {
            assert(merged[0] == op);
        },
    }
    lemma_insert_get(ctx.ops, l, merged, l);
}

/// Some operation queued under logical partition `l` has GPU `g` among its members.
pub open spec fn covered(ctx: PpcView, l: u128, g: u64) -> bool {
    ctx.ops.get(l) matches Some(list) && some_op_covers(list, g)
}

/// The state `b` differs from `a` in the queued operations at most, and is well formed.
pub open spec fn same_tables_wf(a: PpcView, b: PpcView) -> bool {
    b.wf() && same_tables(a, b)
}

proof fn lemma_join_first_keeps(list: Seq<OpView>, p: spec_fn(OpView) -> bool, g2: u64, op: OpView, g: u64)
    requires
        some_op_covers(list, g),
    ensures
        some_op_covers(join_first(list, p, g2, op), g),
{
    lemma_find_first(list, p);
    let r = join_first(list, p, g2, op);
    let k = choose|k: int| 0 <= k < list.len() && (#[trigger] list[k]).gpu_uids.contains(g);
    match find_first(list, p) {
        Some(i) => {
            if k == i {
                let j = choose|j: int| 0 <= j < list[k].gpu_uids.len() && list[k].gpu_uids[j] == g;
                assert(r[k].gpu_uids[j] == g);
            }
            assert(r[k].gpu_uids.contains(g));
        },
        None => {
            assert(r[k] == list[k]);
        },
    }
}

proof fn lemma_upsert_keeps(list: Seq<OpView>, g2: u64, op: OpView, g: u64)
    requires
        some_op_covers(list, g),
        g2 != g,
        find_first(list, crate::operation::covers_gpu(g2)) matches Some(i) ==> op.gpu_uids == crate::seqs::without(
            list[i].gpu_uids,
            g2,
        ),
    ensures
        some_op_covers(upsert_covering(list, g2, op, true), g),
{
    lemma_find_first(list, crate::operation::covers_gpu(g2));
    let r = upsert_covering(list, g2, op, true);
    let k = choose|k: int| 0 <= k < list.len() && (#[trigger] list[k]).gpu_uids.contains(g);
    match find_first(list, crate::operation::covers_gpu(g2)) {
        Some(i) => {
            if k == i {
                crate::seqs::lemma_without(list[i].gpu_uids, g2);
                assert(r[k].gpu_uids.contains(g));
            } else {
                assert(r[k] == list[k]);
            }
        },
        None => {
            assert(r[k] == list[k]);
        },
    }
}

/// Queuing `merged` under `lp` keeps the state well formed, its tables, and
/// the cover of `g` under `l` when `merged` keeps it for `lp == l`.
proof fn lemma_queue_keeps(ctx: PpcView, lp: u128, merged: Seq<OpView>, l: u128, g: u64)
    requires
        ctx.wf(),
        lp == l && covered(ctx, l, g) ==> some_op_covers(merged, g),
    ensures
        same_tables_wf(ctx, PpcView { ops: ctx.ops.insert(lp, merged), ..ctx }),
        covered(ctx, l, g) ==> covered(PpcView { ops: ctx.ops.insert(lp, merged), ..ctx }, l, g),
{
    lemma_insert_get(ctx.ops, lp, merged, l);
    lemma_insert_get(ctx.ops, lp, merged, lp);
}

/// One GPU step of an instance host keeps the tables, well-formedness and
/// the cover of every other GPU.
proof fn lemma_gpu_step_keeps(ctx: PpcView, inst: InstanceView, info: MachineNvLinkInfoView, gpu: NvLinkGpu, l: u128, g: u64)
    requires
        ctx.wf(),
        gpu.guid != g,
    ensures
        same_tables_wf(ctx, gpu_step(ctx, inst, info, gpu).0),
        covered(ctx, l, g) ==> covered(gpu_step(ctx, inst, info, gpu).0, l, g),
{
    let dec = decide_gpu(ctx, inst, info, gpu);
    let gc = dec.g;
    assert(gc.gpu_guid == gpu.guid);
    let usable_skip = match gc.logical_partition_id {
        Some(x) => !ctx.logical_partition_usable(x),
        None => false,
    };
    if dec.skip || usable_skip {
    } else {
        match dec.action {
            GpuAction::AddToPartition => match partition_for(ctx, gc.logical_partition_id, info.domain_uuid) {
                Some(i) => {
                    let p = ctx.db_partitions.vals[i];
                    if !ctx.addition_to_existing_fails(gc, p) {
                        let lp = gc.logical_partition_id.unwrap();
                        let pid = parse_u32_text(p.nmx_m_id).unwrap();
                        let op = ctx.join_existing_op(gc, p, pid);
                        let list = ctx.ops.get(lp);
                        let merged = crate::context::queue(
                            list,
                            join_first(list.unwrap(), crate::operation::updates_partition(pid), gpu.guid, op),
                            op,
                        );
                        if lp == l && covered(ctx, l, g) {
                            lemma_join_first_keeps(list.unwrap(), crate::operation::updates_partition(pid), gpu.guid, op, g);
                        }
                        lemma_queue_keeps(ctx, lp, merged, l, g);
                    }
                },
                None => if gc.logical_partition_id is Some {
                    let lp = gc.logical_partition_id.unwrap();
                    let op = crate::context::create_op(gc, lp);
                    let list = ctx.ops.get(lp);
                    let merged = crate::context::queue(
                        list,
                        join_first(list.unwrap(), crate::operation::in_domain(gc.domain_uuid), gpu.guid, op),
                        op,
                    );
                    if lp == l && covered(ctx, l, g) {
                        lemma_join_first_keeps(list.unwrap(), crate::operation::in_domain(gc.domain_uuid), gpu.guid, op, g);
                    }
                    lemma_queue_keeps(ctx, lp, merged, l, g);
                },
            },
            GpuAction::RemoveFromPartition => {
                match ctx.keep_after_removal(gc.logical_partition_id, gc.partition_nmx_c_id.partition_id, gpu.guid) {
                    Some(k) => if gc.logical_partition_id is Some {
                        lemma_removal_keeps(ctx, gc, k, l, g);
                    },
                    None => {},
                }
            },
            GpuAction::RemoveFromUnknownPartition => {
                let pid = gc.partition_nmx_c_id.partition_id;
                match ctx.keep_in_unknown_after_removal(pid, gpu.guid) {
                    Some(k) => {
                        let op = crate::context::unknown_removal_op(pid, k);
                        let list = ctx.unknown_removals.get(pid);
                        let merged = crate::context::queue(list, upsert_covering(list.unwrap(), gpu.guid, op, false), op);
                        lemma_insert_get(ctx.unknown_removals, pid, merged, pid);
                    },
                    None => {},
                }
            },
            GpuAction::NoOp => {},
        }
    }
}

/// Queuing the removal of GPU `gc` from its partition, keeping `k` as
/// `keep_after_removal` gives it, keeps the cover of every other GPU.
proof fn lemma_removal_keeps(ctx: PpcView, gc: GpuCtxView, k: Seq<u64>, l: u128, g: u64)
    requires
        ctx.wf(),
        gc.gpu_guid != g,
        gc.logical_partition_id is Some,
        ctx.keep_after_removal(gc.logical_partition_id, gc.partition_nmx_c_id.partition_id, gc.gpu_guid) == Some(k),
    ensures
        same_tables_wf(ctx, ctx.after_gpu_removal(gc, k)),
        covered(ctx, l, g) ==> covered(ctx.after_gpu_removal(gc, k), l, g),
{
    let lp = gc.logical_partition_id.unwrap();
    let op = crate::context::removal_op(gc, k);
    let list = ctx.ops.get(lp);
    let merged = crate::context::queue(list, upsert_covering(list.unwrap(), gc.gpu_guid, op, true), op);
    if lp == l && covered(ctx, l, g) {
        let x = list.unwrap();
        lemma_find_first(x, crate::operation::covers_gpu(gc.gpu_guid));
        lemma_upsert_keeps(x, gc.gpu_guid, op, g);
    }
    lemma_queue_keeps(ctx, lp, merged, l, g);
}

/// Releasing a GPU of a host without instance keeps the tables,
/// well-formedness and the cover of every other GPU.
proof fn lemma_release_gpu_keeps(ctx: PpcView, info: MachineNvLinkInfoView, gpu: NvLinkGpu, l: u128, g: u64)
    requires
        ctx.wf(),
        gpu.guid != g,
    ensures
        same_tables_wf(ctx, release_gpu(ctx, info, gpu)),
        covered(ctx, l, g) ==> covered(release_gpu(ctx, info, gpu), l, g),
{
    match ctx.gpu_map.get(gpu.guid) {
        None => match default_partition(ctx) {
            Some(dp) => match dp.partition_id {
                Some(pid) => {
                    let q = pid.partition_id;
                    let op = match ctx.unknown_additions.get(q) {
                        Some(o) => if o.gpu_uids.contains(gpu.guid) {
                            o
                        } else {
                            OpView { gpu_uids: o.gpu_uids.push(gpu.guid), ..o }
                        },
                        None => OpView {
                            domain_uuid: None,
                            operation_type: NmxcPartitionOperationType::Update(q),
                            gpu_uids: dp.gpu_uid_list.push(gpu.guid),
                            name: Seq::empty(),
                            db_partition_id: None,
                        },
                    };
                    lemma_insert_get(ctx.unknown_additions, q, op, q);
                },
                None => {},
            },
            None => {},
        },
        Some(np) => {
            let pid = nmx_id(np);
            match ctx.db_partitions.get(pid) {
                None => {},
                Some(p) => {
                    let gc = GpuCtxView {
                        gpu_guid: gpu.guid,
                        domain_uuid: info.domain_uuid,
                        logical_partition_id: p.logical_partition_id,
                        partition_id: Some(p.id),
                        partition_name: p.name,
                        partition_nmx_c_id: PartitionId { partition_id: pid },
                    };
                    match ctx.keep_after_removal(p.logical_partition_id, pid, gpu.guid) {
                        Some(k) => {
                            lemma_removal_keeps(ctx, gc, k, l, g);
                        },
                        None => {},
                    }
                },
            }
        },
    }
}

proof fn lemma_fold_gpus_keeps(ctx: PpcView, inst: InstanceView, info: MachineNvLinkInfoView, gpus: Seq<NvLinkGpu>, l: u128, g: u64)
    requires
        ctx.wf(),
        forall|k: int| 0 <= k < gpus.len() ==> (#[trigger] gpus[k]).guid != g,
    ensures
        same_tables_wf(ctx, fold_gpus(ctx, inst, info, gpus).0),
        covered(ctx, l, g) ==> covered(fold_gpus(ctx, inst, info, gpus).0, l, g),
    decreases gpus.len(),
{
    if gpus.len() > 0 {
        let rest = gpus.drop_last();
        assert forall|k: int| 0 <= k < rest.len() implies (#[trigger] rest[k]).guid != g by {
            assert(rest[k] == gpus[k]);
        }
        lemma_fold_gpus_keeps(ctx, inst, info, rest, l, g);
        let c = fold_gpus(ctx, inst, info, rest).0;
        assert(gpus[gpus.len() - 1].guid != g);
        lemma_gpu_step_keeps(c, inst, info, gpus.last(), l, g);
    }
}

proof fn lemma_release_gpus_keeps(ctx: PpcView, info: MachineNvLinkInfoView, gpus: Seq<NvLinkGpu>, l: u128, g: u64)
    requires
        ctx.wf(),
        forall|k: int| 0 <= k < gpus.len() ==> (#[trigger] gpus[k]).guid != g,
    ensures
        same_tables_wf(ctx, release_gpus(ctx, info, gpus)),
        covered(ctx, l, g) ==> covered(release_gpus(ctx, info, gpus), l, g),
    decreases gpus.len(),
{
    if gpus.len() > 0 {
        let rest = gpus.drop_last();
        assert forall|k: int| 0 <= k < rest.len() implies (#[trigger] rest[k]).guid != g by {
            assert(rest[k] == gpus[k]);
        }
        lemma_release_gpus_keeps(ctx, info, rest, l, g);
        let c = release_gpus(ctx, info, rest);
        assert(gpus[gpus.len() - 1].guid != g);
        lemma_release_gpu_keeps(c, info, gpus.last(), l, g);
    }
}

/// The GPUs the pass looks at on host `mh`: those of the instance's machine,
/// or, for a host without instance on the admin network, its own.
pub open spec fn pass_gpus(ctx: PpcView, mh: ManagedHostView) -> Seq<NvLinkGpu> {
    match mh.instance {
        None => if on_admin_network(mh.dpu_snapshots) {
            match mh.nvlink_info {
                Some(info) => info.gpus,
                None => Seq::empty(),
            }
        } else {
            Seq::empty()
        },
        Some(inst) => match ctx.machine_nvlink_info.get(inst.machine_id) {
            Some(Some(info)) => info.gpus,
            _ => Seq::empty(),
        },
    }
}

proof fn lemma_machine_step_keeps(
    ctx: PpcView,
    st: KeyedView<u128, StatusObservationView>,
    mh: ManagedHostView,
    now: i64,
    l: u128,
    g: u64,
)
    requires
        ctx.wf(),
        forall|k: int| 0 <= k < pass_gpus(ctx, mh).len() ==> (#[trigger] pass_gpus(ctx, mh)[k]).guid != g,
    ensures
        same_tables_wf(ctx, machine_step(ctx, st, mh, now).0),
        covered(ctx, l, g) ==> covered(machine_step(ctx, st, mh, now).0, l, g),
{
    match mh.instance {
        None => if on_admin_network(mh.dpu_snapshots) {
            match mh.nvlink_info {
                Some(info) => {
                    assert forall|k: int| 0 <= k < info.gpus.len() implies (#[trigger] info.gpus[k]).guid != g by {
                        assert(pass_gpus(ctx, mh)[k] == info.gpus[k]);
                    }
                    lemma_release_gpus_keeps(ctx, info, info.gpus, l, g);
                },
                None => {},
            }
        },
        Some(inst) => match ctx.machine_nvlink_info.get(inst.machine_id) {
            Some(Some(info)) => {
                assert forall|k: int| 0 <= k < info.gpus.len() implies (#[trigger] info.gpus[k]).guid != g by {
                    assert(pass_gpus(ctx, mh)[k] == info.gpus[k]);
                }
                lemma_fold_gpus_keeps(ctx, inst, info, info.gpus, l, g);
            },
            _ => {},
        },
    }
}

proof fn lemma_fold_machines_keeps(ctx: PpcView, mhs: Seq<ManagedHostView>, now: i64, l: u128, g: u64)
    requires
        ctx.wf(),
        forall|h: int, k: int|
            0 <= h < mhs.len() && 0 <= k < pass_gpus(ctx, mhs[h]).len() ==> (#[trigger] pass_gpus(ctx, mhs[h])[k]).guid != g,
    ensures
        same_tables_wf(ctx, fold_machines(ctx, mhs, now).0),
        covered(ctx, l, g) ==> covered(fold_machines(ctx, mhs, now).0, l, g),
    decreases mhs.len(),
{
    if mhs.len() > 0 {
        let rest = mhs.drop_last();
        assert forall|h: int, k: int|
            0 <= h < rest.len() && 0 <= k < pass_gpus(ctx, rest[h]).len() implies (#[trigger] pass_gpus(ctx, rest[h])[k]).guid != g by {
            assert(rest[h] == mhs[h]);
        }
        lemma_fold_machines_keeps(ctx, rest, now, l, g);
        let (c, st) = fold_machines(ctx, rest, now);
        let mh = mhs.last();
        assert(pass_gpus(c, mh) == pass_gpus(ctx, mh));
        assert forall|k: int| 0 <= k < pass_gpus(c, mh).len() implies (#[trigger] pass_gpus(c, mh)[k]).guid != g by {
            assert(pass_gpus(ctx, mhs[mhs.len() - 1])[k].guid != g);
        }
        lemma_machine_step_keeps(c, st, mh, now, l, g);
    }
}

/// GPU `gpu` of instance `inst`, on a machine of `info`, is in no partition
/// and asked into the usable logical partition `l`; the domain's partition
/// of `l`, if there is one, is one NMX-C reports.
pub open spec fn asked_into(ctx: PpcView, inst: InstanceView, info: MachineNvLinkInfoView, gpu: NvLinkGpu, l: u128) -> bool {
    &&& ctx.gpu_map.get(gpu.guid) is None
    &&& gpu_config_for(inst.gpu_configs, (gpu.device_id - 1) as u32) matches Some(c) && c.logical_partition_id == Some(l)
    &&& ctx.logical_partition_usable(l)
    &&& partition_for(ctx, Some(l), info.domain_uuid) matches Some(i) ==> ctx.nmx_c_partitions.get(
        parse_u32_text(ctx.db_partitions.vals[i].nmx_m_id).unwrap(),
    ) is Some
}

proof fn lemma_fold_gpus_covers(ctx: PpcView, inst: InstanceView, info: MachineNvLinkInfoView, gpus: Seq<NvLinkGpu>, j: int, l: u128)
    requires
        ctx.wf(),
        0 <= j < gpus.len(),
        asked_into(ctx, inst, info, gpus[j], l),
        forall|k: int| 0 <= k < gpus.len() && k != j ==> (#[trigger] gpus[k]).guid != gpus[j].guid,
    ensures
        same_tables_wf(ctx, fold_gpus(ctx, inst, info, gpus).0),
        covered(fold_gpus(ctx, inst, info, gpus).0, l, gpus[j].guid),
    decreases gpus.len(),
{
    let g = gpus[j].guid;
    let rest = gpus.drop_last();
    if j == gpus.len() - 1 {
        assert forall|k: int| 0 <= k < rest.len() implies (#[trigger] rest[k]).guid != g by {
            assert(rest[k] == gpus[k]);
        }
        lemma_fold_gpus_keeps(ctx, inst, info, rest, l, g);
        let c = fold_gpus(ctx, inst, info, rest).0;
        assert(asked_into(c, inst, info, gpus[j], l));
        lemma_asked_gpu_gets_covered(c, inst, info, gpus.last(), l);
        lemma_gpu_step_tables(c, inst, info, gpus.last());
    } else {
        assert(rest[j] == gpus[j]);
        assert forall|k: int| 0 <= k < rest.len() && k != j implies (#[trigger] rest[k]).guid != rest[j].guid by {
            assert(rest[k] == gpus[k]);
        }
        lemma_fold_gpus_covers(ctx, inst, info, rest, j, l);
        let c = fold_gpus(ctx, inst, info, rest).0;
        assert(gpus[gpus.len() - 1].guid != g);
        lemma_gpu_step_keeps(c, inst, info, gpus.last(), l, g);
    }
}

proof fn lemma_gpu_step_tables(ctx: PpcView, inst: InstanceView, info: MachineNvLinkInfoView, gpu: NvLinkGpu)
    requires
        ctx.wf(),
    ensures
        same_tables_wf(ctx, gpu_step(ctx, inst, info, gpu).0),
{
    let other: u64 = if gpu.guid == 0 {
        1
    } else {
        0
    };
    lemma_gpu_step_keeps(ctx, inst, info, gpu, 0, other);
}

proof fn lemma_fold_machines_covers(ctx: PpcView, mhs: Seq<ManagedHostView>, now: i64, h: int, j: int, l: u128)
    requires
        ctx.wf(),
        0 <= h < mhs.len(),
        mhs[h].instance matches Some(inst) && ctx.machine_nvlink_info.get(inst.machine_id) matches Some(Some(info)) && 0 <= j
            < info.gpus.len() && asked_into(ctx, inst, info, info.gpus[j], l),
        forall|h2: int, k: int|
            0 <= h2 < mhs.len() && 0 <= k < pass_gpus(ctx, mhs[h2]).len() && (h2 != h || k != j) ==> (#[trigger] pass_gpus(
                ctx,
                mhs[h2],
            )[k]).guid != pass_gpus(ctx, mhs[h])[j].guid,
    ensures
        same_tables_wf(ctx, fold_machines(ctx, mhs, now).0),
        covered(fold_machines(ctx, mhs, now).0, l, pass_gpus(ctx, mhs[h])[j].guid),
    decreases mhs.len(),
{
    let g = pass_gpus(ctx, mhs[h])[j].guid;
    let rest = mhs.drop_last();
    let mh = mhs.last();
    if h == mhs.len() - 1 {
        assert forall|h2: int, k: int|
            0 <= h2 < rest.len() && 0 <= k < pass_gpus(ctx, rest[h2]).len() implies (#[trigger] pass_gpus(ctx, rest[h2])[k]).guid != g by {
            assert(rest[h2] == mhs[h2]);
        }
        lemma_fold_machines_keeps(ctx, rest, now, l, g);
        let (c, st) = fold_machines(ctx, rest, now);
        let inst = mh.instance.unwrap();
        let info = ctx.machine_nvlink_info.get(inst.machine_id).unwrap().unwrap();
        assert(c.machine_nvlink_info == ctx.machine_nvlink_info);
        assert(pass_gpus(ctx, mh) == info.gpus);
        assert(asked_into(c, inst, info, info.gpus[j], l));
        assert forall|k: int| 0 <= k < info.gpus.len() && k != j implies (#[trigger] info.gpus[k]).guid != info.gpus[j].guid by {
            assert(pass_gpus(ctx, mhs[h])[k] == info.gpus[k]);
        }
        lemma_fold_gpus_covers(c, inst, info, info.gpus, j, l);
    } else {
        assert(rest[h] == mhs[h]);
        assert forall|h2: int, k: int|
            0 <= h2 < rest.len() && 0 <= k < pass_gpus(ctx, rest[h2]).len() && (h2 != h || k != j) implies (#[trigger] pass_gpus(
                ctx,
                rest[h2],
            )[k]).guid != pass_gpus(ctx, rest[h])[j].guid by {
            assert(rest[h2] == mhs[h2]);
        }
        lemma_fold_machines_covers(ctx, rest, now, h, j, l);
        let (c, st) = fold_machines(ctx, rest, now);
        assert(pass_gpus(c, mh) == pass_gpus(ctx, mh));
        assert forall|k: int| 0 <= k < pass_gpus(c, mh).len() implies (#[trigger] pass_gpus(c, mh)[k]).guid != g by {
            assert(pass_gpus(ctx, mhs[mhs.len() - 1])[k].guid != g);
        }
        lemma_machine_step_keeps(c, st, mh, now, l, g);
    }
}

proof fn lemma_merge_unknown_keeps(ctx: PpcView, l: u128, g: u64)
    requires
        ctx.wf(),
        covered(ctx, l, g),
    ensures
        covered(merge_unknown(ctx), l, g),
{
    let extra = unknown_operations(ctx);
    if extra.len() > 0 {
        let base = match ctx.ops.get(0) {
            Some(x) => x,
            None => Seq::empty(),
        };
        if l == 0 {
            let list = ctx.ops.get(0).unwrap();
            let k = choose|k: int| 0 <= k < list.len() && (#[trigger] list[k]).gpu_uids.contains(g);
            assert((base + extra)[k] == list[k]);
        }
        lemma_insert_get(ctx.ops, 0, base + extra, l);
    }
}

/// Law: over a whole pass, a GPU in no partition whose instance asks for it
/// in a usable logical partition `l` ends up a member of an operation
/// queued under `l`, whatever the pass does with the other GPUs. Left out:
/// a GPU whose UID the pass meets more than once, and a domain partition of
/// `l` that NMX-C does not report.
pub proof fn lemma_pass_covers_asked_gpu(ctx: PpcView, mhs: Seq<ManagedHostView>, now: i64, h: int, j: int, l: u128)
    requires
        ctx.wf(),
        0 <= h < mhs.len(),
        mhs[h].instance matches Some(inst) && ctx.machine_nvlink_info.get(inst.machine_id) matches Some(Some(info)) && 0 <= j
            < info.gpus.len() && asked_into(ctx, inst, info, info.gpus[j], l),
        forall|h2: int, k: int|
            0 <= h2 < mhs.len() && 0 <= k < pass_gpus(ctx, mhs[h2]).len() && (h2 != h || k != j) ==> (#[trigger] pass_gpus(
                ctx,
                mhs[h2],
            )[k]).guid != pass_gpus(ctx, mhs[h])[j].guid,
    ensures
        covered(check_partitions(ctx, mhs, now).0, l, pass_gpus(ctx, mhs[h])[j].guid),
{
    lemma_fold_machines_covers(ctx, mhs, now, h, j, l);
    lemma_merge_unknown_keeps(fold_machines(ctx, mhs, now).0, l, pass_gpus(ctx, mhs[h])[j].guid);
}

/// Operation `op` deletes NMX-C partition `pid` or sets its members.
pub open spec fn rewrites(op: OpView, pid: u32) -> bool {
    op.operation_type == NmxcPartitionOperationType::Remove(pid) || op.operation_type
        == NmxcPartitionOperationType::Update(pid)
}

/// Each member of `op` that the GPU map `m` places in a partition is one of
/// a partition that `op` rewrites.
pub open spec fn op_names_partitions(m: KeyedView<u64, PartitionInfoView>, op: OpView) -> bool {
    forall|u: u64| #[trigger] op.gpu_uids.contains(u) && m.get(u) is Some ==> rewrites(op, nmx_id(m.get(u).unwrap()))
}

pub open spec fn list_names_partitions(m: KeyedView<u64, PartitionInfoView>, list: Seq<OpView>) -> bool {
    forall|k: int| 0 <= k < list.len() ==> op_names_partitions(m, #[trigger] list[k])
}

/// Every queued operation rewrites the partition of each of its placed members.
pub open spec fn ops_name_partitions(ctx: PpcView) -> bool {
    forall|lp: u128| #![trigger ctx.ops.get(lp)] ctx.ops.get(lp) is Some ==> list_names_partitions(
        ctx.gpu_map,
        ctx.ops.get(lp).unwrap(),
    )
}

/// NMX-C lists each placed GPU only in the partition the GPU map gives it.
pub open spec fn members_placed_consistently(ctx: PpcView) -> bool {
    forall|q: u32, u: u64|
        ctx.nmx_c_partitions.get(q) is Some && (#[trigger] ctx.nmx_c_partitions.get(q).unwrap().gpu_uid_list.contains(u))
            && ctx.gpu_map.get(u) is Some ==> nmx_id(ctx.gpu_map.get(u).unwrap()) == q
}

/// Some operation queued under `l` rewrites NMX-C partition `pid` without GPU `g`.
pub open spec fn dropped(ctx: PpcView, l: u128, pid: u32, g: u64) -> bool {
    ctx.ops.get(l) matches Some(list) && some_op_drops(list, pid, g)
}

proof fn lemma_push_contains(s: Seq<u64>, x: u64, u: u64)
    ensures
        s.push(x).contains(u) <==> (s.contains(u) || u == x),
{
    if s.push(x).contains(u) {
        let j = choose|j: int| 0 <= j < s.push(x).len() && s.push(x)[j] == u;
        if j < s.len() {
            assert(s[j] == u);
        }
    }
    if s.contains(u) {
        let j = choose|j: int| 0 <= j < s.len() && s[j] == u;
        assert(s.push(x)[j] == u);
    }
    assert(s.push(x)[s.len() as int] == x);
}

proof fn lemma_join_first_names(
    m: KeyedView<u64, PartitionInfoView>,
    list: Seq<OpView>,
    p: spec_fn(OpView) -> bool,
    g2: u64,
    op: OpView,
    pid: u32,
    g: u64,
)
    requires
        list_names_partitions(m, list),
        op_names_partitions(m, op),
        m.get(g2) is None,
    ensures
        list_names_partitions(m, join_first(list, p, g2, op)),
        some_op_drops(list, pid, g) && g2 != g ==> some_op_drops(join_first(list, p, g2, op), pid, g),
{
    lemma_find_first(list, p);
    let r = join_first(list, p, g2, op);
    match find_first(list, p) {
        Some(i) => {
            assert forall|k: int| 0 <= k < r.len() implies op_names_partitions(m, #[trigger] r[k]) by {
                if k == i {
                    assert forall|u: u64| #[trigger] r[k].gpu_uids.contains(u) && m.get(u) is Some implies rewrites(
                        r[k],
                        nmx_id(m.get(u).unwrap()),
                    ) by {
                        lemma_push_contains(list[i].gpu_uids, g2, u);
                        assert(list[i].gpu_uids.contains(u));
                        assert(op_names_partitions(m, list[i]));
                    }
                } else {
                    assert(r[k] == list[k]);
                }
            }
            if some_op_drops(list, pid, g) && g2 != g {
                let k = choose|k: int|
                    0 <= k < list.len() && rewrites(#[trigger] list[k], pid) && !list[k].gpu_uids.contains(g);
                lemma_push_contains(list[k].gpu_uids, g2, g);
                assert(rewrites(r[k], pid) && !r[k].gpu_uids.contains(g));
            }
        },
        None => {
            assert forall|k: int| 0 <= k < r.len() implies op_names_partitions(m, #[trigger] r[k]) by {
                if k < list.len() {
                    assert(r[k] == list[k]);
                }
            }
            if some_op_drops(list, pid, g) {
                let k = choose|k: int|
                    0 <= k < list.len() && rewrites(#[trigger] list[k], pid) && !list[k].gpu_uids.contains(g);
                assert(r[k] == list[k]);
            }
        },
    }
}

/// Queuing `merged` under `lp` keeps the operations naming their partitions.
proof fn lemma_queue_names(ctx: PpcView, lp: u128, merged: Seq<OpView>)
    requires
        ctx.wf(),
        ops_name_partitions(ctx),
        list_names_partitions(ctx.gpu_map, merged),
    ensures
        ops_name_partitions(PpcView { ops: ctx.ops.insert(lp, merged), ..ctx }),
{
    let c = PpcView { ops: ctx.ops.insert(lp, merged), ..ctx };
    assert forall|lp2: u128| #![trigger c.ops.get(lp2)] c.ops.get(lp2) is Some implies list_names_partitions(
        c.gpu_map,
        c.ops.get(lp2).unwrap(),
    ) by {
        lemma_insert_get(ctx.ops, lp, merged, lp2);
    }
}

/// Queuing the removal of GPU `gc` from its partition keeps the operations
/// naming their partitions, and keeps every other GPU dropped.
proof fn lemma_removal_names(ctx: PpcView, gc: GpuCtxView, k: Seq<u64>, l: u128, pid: u32, g: u64)
    requires
        ctx.wf(),
        members_placed_consistently(ctx),
        ops_name_partitions(ctx),
        gc.logical_partition_id is Some,
        ctx.keep_after_removal(gc.logical_partition_id, gc.partition_nmx_c_id.partition_id, gc.gpu_guid) == Some(k),
        ctx.gpu_map.get(gc.gpu_guid) is Some,
        nmx_id(ctx.gpu_map.get(gc.gpu_guid).unwrap()) == gc.partition_nmx_c_id.partition_id,
    ensures
        ops_name_partitions(ctx.after_gpu_removal(gc, k)),
        gc.gpu_guid != g && dropped(ctx, l, pid, g) ==> dropped(ctx.after_gpu_removal(gc, k), l, pid, g),
{
    let m = ctx.gpu_map;
    let g2 = gc.gpu_guid;
    let pid2 = gc.partition_nmx_c_id.partition_id;
    let lp = gc.logical_partition_id.unwrap();
    let op = crate::context::removal_op(gc, k);
    let list = ctx.ops.get(lp);
    assert(rewrites(op, pid2));
    let queued = match list {
        Some(x) => match find_first(x, crate::operation::covers_gpu(g2)) {
            Some(i) => Some(crate::seqs::without(x[i].gpu_uids, g2)),
            None => None,
        },
        None => None,
    };
    if list is Some {
        lemma_find_first(list.unwrap(), crate::operation::covers_gpu(g2));
    }
    match queued {
        Some(q) => {
            let x = list.unwrap();
            let i = find_first(x, crate::operation::covers_gpu(g2)).unwrap();
            crate::seqs::lemma_without(x[i].gpu_uids, g2);
            assert(op_names_partitions(m, x[i]));
            assert(x[i].gpu_uids.contains(g2));
            assert(rewrites(x[i], pid2));
            assert forall|u: u64| #[trigger] op.gpu_uids.contains(u) && m.get(u) is Some implies rewrites(
                op,
                nmx_id(m.get(u).unwrap()),
            ) by {
                assert(x[i].gpu_uids.contains(u));
            }
        },
        None => {
            let members = ctx.nmx_c_partitions.get(pid2).unwrap().gpu_uid_list;
            crate::seqs::lemma_without(members, g2);
            assert forall|u: u64| #[trigger] op.gpu_uids.contains(u) && m.get(u) is Some implies rewrites(
                op,
                nmx_id(m.get(u).unwrap()),
            ) by {
                assert(members.contains(u));
            }
        },
    }
    let merged = crate::context::queue(list, upsert_covering(list.unwrap(), g2, op, true), op);
    match list {
        Some(x) => {
            let r = upsert_covering(x, g2, op, true);
            assert forall|j: int| 0 <= j < r.len() implies op_names_partitions(m, #[trigger] r[j]) by {
                match find_first(x, crate::operation::covers_gpu(g2)) {
                    Some(i) => {
                        if j == i {
                            assert(r[j].gpu_uids == op.gpu_uids && r[j].operation_type == op.operation_type);
                        } else {
                            assert(r[j] == x[j]);
                        }
                    },
                    None => {
                        if j < x.len() {
                            assert(r[j] == x[j]);
                        } else {
                            assert(r[j] == op);
                        }
                    },
                }
            }
            if lp == l && g2 != g && dropped(ctx, l, pid, g) {
                let kk = choose|kk: int|
                    0 <= kk < x.len() && rewrites(#[trigger] x[kk], pid) && !x[kk].gpu_uids.contains(g);
                match find_first(x, crate::operation::covers_gpu(g2)) {
                    Some(i) => {
                        if i == kk {
                            assert(op_names_partitions(m, x[kk]));
                            assert(x[kk].gpu_uids.contains(g2));
                            assert(pid2 == pid);
                            crate::seqs::lemma_without(x[kk].gpu_uids, g2);
                            assert(rewrites(r[kk], pid) && !r[kk].gpu_uids.contains(g));
                        } else {
                            assert(r[kk] == x[kk]);
                        }
                    },
                    None => {
                        assert(r[kk] == x[kk]);
                    },
                }
                assert(some_op_drops(r, pid, g));
            }
        },
        None => {
            assert forall|j: int| 0 <= j < merged.len() implies op_names_partitions(m, #[trigger] merged[j]) by {
                assert(merged[j] == op);
            }
        },
    }
    lemma_queue_names(ctx, lp, merged);
    lemma_insert_get(ctx.ops, lp, merged, l);
}

/// One GPU step of an instance host keeps the operations naming their
/// partitions, and keeps every other GPU dropped.
proof fn lemma_gpu_step_names(
    ctx: PpcView,
    inst: InstanceView,
    info: MachineNvLinkInfoView,
    gpu: NvLinkGpu,
    l: u128,
    pid: u32,
    g: u64,
)
    requires
        ctx.wf(),
        members_placed_consistently(ctx),
        ops_name_partitions(ctx),
    ensures
        ops_name_partitions(gpu_step(ctx, inst, info, gpu).0),
        gpu.guid != g && dropped(ctx, l, pid, g) ==> dropped(gpu_step(ctx, inst, info, gpu).0, l, pid, g),
{
    let m = ctx.gpu_map;
    let dec = decide_gpu(ctx, inst, info, gpu);
    let gc = dec.g;
    assert(gc.gpu_guid == gpu.guid);
    let usable_skip = match gc.logical_partition_id {
        Some(x) => !ctx.logical_partition_usable(x),
        None => false,
    };
    if dec.skip || usable_skip {
    } else {
        match dec.action {
            GpuAction::AddToPartition => {
                assert(m.get(gpu.guid) is None);
                match partition_for(ctx, gc.logical_partition_id, info.domain_uuid) {
                    Some(i) => {
                        let p = ctx.db_partitions.vals[i];
                        if !ctx.addition_to_existing_fails(gc, p) {
                            let lp = gc.logical_partition_id.unwrap();
                            let pidp = parse_u32_text(p.nmx_m_id).unwrap();
                            let op = ctx.join_existing_op(gc, p, pidp);
                            let members = ctx.nmx_c_partitions.get(pidp).unwrap().gpu_uid_list;
                            assert forall|u: u64| #[trigger] op.gpu_uids.contains(u) && m.get(u) is Some implies rewrites(
                                op,
                                nmx_id(m.get(u).unwrap()),
                            ) by {
                                lemma_push_contains(members, gpu.guid, u);
                                assert(members.contains(u));
                            }
                            let list = ctx.ops.get(lp);
                            let merged = crate::context::queue(
                                list,
                                join_first(list.unwrap(), crate::operation::updates_partition(pidp), gpu.guid, op),
                                op,
                            );
                            match list {
                                Some(x) => lemma_join_first_names(
                                    m,
                                    x,
                                    crate::operation::updates_partition(pidp),
                                    gpu.guid,
                                    op,
                                    pid,
                                    g,
                                ),
                                None => {
                                    assert forall|j: int| 0 <= j < merged.len() implies op_names_partitions(
                                        m,
                                        #[trigger] merged[j],
                                    ) by {
                                        assert(merged[j] == op);
                                    }
                                },
                            }
                            lemma_queue_names(ctx, lp, merged);
                            lemma_insert_get(ctx.ops, lp, merged, l);
                        }
                    },
                    None => if gc.logical_partition_id is Some {
                        let lp = gc.logical_partition_id.unwrap();
                        let op = crate::context::create_op(gc, lp);
                        assert forall|u: u64| #[trigger] op.gpu_uids.contains(u) && m.get(u) is Some implies rewrites(
                            op,
                            nmx_id(m.get(u).unwrap()),
                        ) by {
                            lemma_push_contains(Seq::<u64>::empty(), gpu.guid, u);
                            assert(op.gpu_uids == Seq::<u64>::empty().push(gpu.guid));
                        }
                        let list = ctx.ops.get(lp);
                        let merged = crate::context::queue(
                            list,
                            join_first(list.unwrap(), crate::operation::in_domain(gc.domain_uuid), gpu.guid, op),
                            op,
                        );
                        match list {
                            Some(x) => lemma_join_first_names(
                                m,
                                x,
                                crate::operation::in_domain(gc.domain_uuid),
                                gpu.guid,
                                op,
                                pid,
                                g,
                            ),
                            None => {
                                assert forall|j: int| 0 <= j < merged.len() implies op_names_partitions(
                                    m,
                                    #[trigger] merged[j],
                                ) by {
                                    assert(merged[j] == op);
                                }
                            },
                        }
                        lemma_queue_names(ctx, lp, merged);
                        lemma_insert_get(ctx.ops, lp, merged, l);
                    },
                }
            },
            GpuAction::RemoveFromPartition => {
                match ctx.keep_after_removal(gc.logical_partition_id, gc.partition_nmx_c_id.partition_id, gpu.guid) {
                    Some(k) => if gc.logical_partition_id is Some {
                        lemma_removal_names(ctx, gc, k, l, pid, g);
                    },
                    None => {},
                }
            },
            GpuAction::RemoveFromUnknownPartition => {},
            GpuAction::NoOp => {},
        }
    }
}

proof fn lemma_release_gpu_names(ctx: PpcView, info: MachineNvLinkInfoView, gpu: NvLinkGpu, l: u128, pid: u32, g: u64)
    requires
        ctx.wf(),
        members_placed_consistently(ctx),
        ops_name_partitions(ctx),
    ensures
        ops_name_partitions(release_gpu(ctx, info, gpu)),
        gpu.guid != g && dropped(ctx, l, pid, g) ==> dropped(release_gpu(ctx, info, gpu), l, pid, g),
{
    match ctx.gpu_map.get(gpu.guid) {
        None => {},
        Some(np) => {
            let q = nmx_id(np);
            match ctx.db_partitions.get(q) {
                None => {},
                Some(p) => {
                    let gc = GpuCtxView {
                        gpu_guid: gpu.guid,
                        domain_uuid: info.domain_uuid,
                        logical_partition_id: p.logical_partition_id,
                        partition_id: Some(p.id),
                        partition_name: p.name,
                        partition_nmx_c_id: PartitionId { partition_id: q },
                    };
                    match ctx.keep_after_removal(p.logical_partition_id, q, gpu.guid) {
                        Some(k) => {
                            lemma_removal_names(ctx, gc, k, l, pid, g);
                        },
                        None => {},
                    }
                },
            }
        },
    }
}

proof fn lemma_fold_gpus_names(
    ctx: PpcView,
    inst: InstanceView,
    info: MachineNvLinkInfoView,
    gpus: Seq<NvLinkGpu>,
    l: u128,
    pid: u32,
    g: u64,
)
    requires
        ctx.wf(),
        members_placed_consistently(ctx),
        ops_name_partitions(ctx),
    ensures
        same_tables_wf(ctx, fold_gpus(ctx, inst, info, gpus).0),
        ops_name_partitions(fold_gpus(ctx, inst, info, gpus).0),
        (forall|k: int| 0 <= k < gpus.len() ==> (#[trigger] gpus[k]).guid != g) && dropped(ctx, l, pid, g) ==> dropped(
            fold_gpus(ctx, inst, info, gpus).0,
            l,
            pid,
            g,
        ),
    decreases gpus.len(),
{
    if gpus.len() > 0 {
        let rest = gpus.drop_last();
        lemma_fold_gpus_names(ctx, inst, info, rest, l, pid, g);
        let c = fold_gpus(ctx, inst, info, rest).0;
        lemma_gpu_step_tables(c, inst, info, gpus.last());
        lemma_gpu_step_names(c, inst, info, gpus.last(), l, pid, g);
        if forall|k: int| 0 <= k < gpus.len() ==> (#[trigger] gpus[k]).guid != g {
            assert forall|k: int| 0 <= k < rest.len() implies (#[trigger] rest[k]).guid != g by {
                assert(rest[k] == gpus[k]);
            }
            assert(gpus[gpus.len() - 1].guid != g);
        }
    }
}

proof fn lemma_release_gpus_names(ctx: PpcView, info: MachineNvLinkInfoView, gpus: Seq<NvLinkGpu>, l: u128, pid: u32, g: u64)
    requires
        ctx.wf(),
        members_placed_consistently(ctx),
        ops_name_partitions(ctx),
    ensures
        same_tables_wf(ctx, release_gpus(ctx, info, gpus)),
        ops_name_partitions(release_gpus(ctx, info, gpus)),
        (forall|k: int| 0 <= k < gpus.len() ==> (#[trigger] gpus[k]).guid != g) && dropped(ctx, l, pid, g) ==> dropped(
            release_gpus(ctx, info, gpus),
            l,
            pid,
            g,
        ),
    decreases gpus.len(),
{
    if gpus.len() > 0 {
        let rest = gpus.drop_last();
        lemma_release_gpus_names(ctx, info, rest, l, pid, g);
        let c = release_gpus(ctx, info, rest);
        let other: u64 = if gpus.last().guid == 0 {
            1
        } else {
            0
        };
        lemma_release_gpu_keeps(c, info, gpus.last(), 0, other);
        lemma_release_gpu_names(c, info, gpus.last(), l, pid, g);
        if forall|k: int| 0 <= k < gpus.len() ==> (#[trigger] gpus[k]).guid != g {
            assert forall|k: int| 0 <= k < rest.len() implies (#[trigger] rest[k]).guid != g by {
                assert(rest[k] == gpus[k]);
            }
            assert(gpus[gpus.len() - 1].guid != g);
        }
    }
}

proof fn lemma_machine_step_names(
    ctx: PpcView,
    st: KeyedView<u128, StatusObservationView>,
    mh: ManagedHostView,
    now: i64,
    l: u128,
    pid: u32,
    g: u64,
)
    requires
        ctx.wf(),
        members_placed_consistently(ctx),
        ops_name_partitions(ctx),
    ensures
        same_tables_wf(ctx, machine_step(ctx, st, mh, now).0),
        ops_name_partitions(machine_step(ctx, st, mh, now).0),
        (forall|k: int| 0 <= k < pass_gpus(ctx, mh).len() ==> (#[trigger] pass_gpus(ctx, mh)[k]).guid != g) && dropped(
            ctx,
            l,
            pid,
            g,
        ) ==> dropped(machine_step(ctx, st, mh, now).0, l, pid, g),
{
    let far = forall|k: int| 0 <= k < pass_gpus(ctx, mh).len() ==> (#[trigger] pass_gpus(ctx, mh)[k]).guid != g;
    match mh.instance {
        None => if on_admin_network(mh.dpu_snapshots) {
            match mh.nvlink_info {
                Some(info) => {
                    lemma_release_gpus_names(ctx, info, info.gpus, l, pid, g);
                    if far {
                        assert forall|k: int| 0 <= k < info.gpus.len() implies (#[trigger] info.gpus[k]).guid != g by {
                            assert(pass_gpus(ctx, mh)[k] == info.gpus[k]);
                        }
                    }
                },
                None => {},
            }
        },
        Some(inst) => match ctx.machine_nvlink_info.get(inst.machine_id) {
            Some(Some(info)) => {
                lemma_fold_gpus_names(ctx, inst, info, info.gpus, l, pid, g);
                if far {
                    assert forall|k: int| 0 <= k < info.gpus.len() implies (#[trigger] info.gpus[k]).guid != g by {
                        assert(pass_gpus(ctx, mh)[k] == info.gpus[k]);
                    }
                }
            },
            _ => {},
        },
    }
}

proof fn lemma_fold_machines_names(ctx: PpcView, mhs: Seq<ManagedHostView>, now: i64, l: u128, pid: u32, g: u64)
    requires
        ctx.wf(),
        members_placed_consistently(ctx),
        ops_name_partitions(ctx),
    ensures
        same_tables_wf(ctx, fold_machines(ctx, mhs, now).0),
        ops_name_partitions(fold_machines(ctx, mhs, now).0),
        (forall|h: int, k: int|
            0 <= h < mhs.len() && 0 <= k < pass_gpus(ctx, mhs[h]).len() ==> (#[trigger] pass_gpus(ctx, mhs[h])[k]).guid
                != g) && dropped(ctx, l, pid, g) ==> dropped(fold_machines(ctx, mhs, now).0, l, pid, g),
    decreases mhs.len(),
{
    if mhs.len() > 0 {
        let rest = mhs.drop_last();
        lemma_fold_machines_names(ctx, rest, now, l, pid, g);
        let (c, st) = fold_machines(ctx, rest, now);
        let mh = mhs.last();
        assert(pass_gpus(c, mh) == pass_gpus(ctx, mh));
        assert(members_placed_consistently(c));
        lemma_machine_step_names(c, st, mh, now, l, pid, g);
        if forall|h: int, k: int|
            0 <= h < mhs.len() && 0 <= k < pass_gpus(ctx, mhs[h]).len() ==> (#[trigger] pass_gpus(ctx, mhs[h])[k]).guid != g {
            assert forall|h: int, k: int|
                0 <= h < rest.len() && 0 <= k < pass_gpus(ctx, rest[h]).len() implies (#[trigger] pass_gpus(
                    ctx,
                    rest[h],
                )[k]).guid != g by {
                assert(rest[h] == mhs[h]);
            }
            assert forall|k: int| 0 <= k < pass_gpus(c, mh).len() implies (#[trigger] pass_gpus(c, mh)[k]).guid != g by {
                assert(pass_gpus(ctx, mhs[mhs.len() - 1])[k].guid != g);
            }
        }
    }
}

/// GPU `gpu` of instance `inst` sits in a partition NMX-C reports, stored
/// under the usable logical partition `l`, and the instance does not ask for
/// it in `l`.
pub open spec fn unwanted_in(ctx: PpcView, inst: InstanceView, gpu: NvLinkGpu, l: u128) -> bool {
    &&& ctx.gpu_map.get(gpu.guid) matches Some(np) && ctx.db_partitions.get(nmx_id(np)) matches Some(p)
        && p.logical_partition_id == Some(l)
    &&& ctx.nmx_c_partitions.get(nmx_id(ctx.gpu_map.get(gpu.guid).unwrap())) is Some
    &&& !(gpu_config_for(inst.gpu_configs, (gpu.device_id - 1) as u32) matches Some(c) && c.logical_partition_id == Some(l))
    &&& ctx.logical_partition_usable(l)
}

proof fn lemma_fold_gpus_drops(ctx: PpcView, inst: InstanceView, info: MachineNvLinkInfoView, gpus: Seq<NvLinkGpu>, j: int, l: u128)
    requires
        ctx.wf(),
        members_placed_consistently(ctx),
        ops_name_partitions(ctx),
        0 <= j < gpus.len(),
        unwanted_in(ctx, inst, gpus[j], l),
        forall|k: int| 0 <= k < gpus.len() && k != j ==> (#[trigger] gpus[k]).guid != gpus[j].guid,
    ensures
        same_tables_wf(ctx, fold_gpus(ctx, inst, info, gpus).0),
        ops_name_partitions(fold_gpus(ctx, inst, info, gpus).0),
        dropped(fold_gpus(ctx, inst, info, gpus).0, l, nmx_id(ctx.gpu_map.get(gpus[j].guid).unwrap()), gpus[j].guid),
    decreases gpus.len(),
{
    let g = gpus[j].guid;
    let pid = nmx_id(ctx.gpu_map.get(g).unwrap());
    let rest = gpus.drop_last();
    lemma_fold_gpus_names(ctx, inst, info, rest, l, pid, g);
    let c = fold_gpus(ctx, inst, info, rest).0;
    lemma_gpu_step_tables(c, inst, info, gpus.last());
    lemma_gpu_step_names(c, inst, info, gpus.last(), l, pid, g);
    if j == gpus.len() - 1 {
        assert(unwanted_in(c, inst, gpus[j], l));
        lemma_unwanted_gpu_gets_dropped(c, inst, info, gpus.last(), l);
    } else {
        assert(rest[j] == gpus[j]);
        assert forall|k: int| 0 <= k < rest.len() && k != j implies (#[trigger] rest[k]).guid != rest[j].guid by {
            assert(rest[k] == gpus[k]);
        }
        lemma_fold_gpus_drops(ctx, inst, info, rest, j, l);
        assert(gpus[gpus.len() - 1].guid != g);
    }
}

proof fn lemma_fold_machines_drops(ctx: PpcView, mhs: Seq<ManagedHostView>, now: i64, h: int, j: int, l: u128)
    requires
        ctx.wf(),
        members_placed_consistently(ctx),
        ops_name_partitions(ctx),
        0 <= h < mhs.len(),
        mhs[h].instance matches Some(inst) && ctx.machine_nvlink_info.get(inst.machine_id) matches Some(Some(info)) && 0 <= j
            < info.gpus.len() && unwanted_in(ctx, inst, info.gpus[j], l),
        forall|h2: int, k: int|
            0 <= h2 < mhs.len() && 0 <= k < pass_gpus(ctx, mhs[h2]).len() && (h2 != h || k != j) ==> (#[trigger] pass_gpus(
                ctx,
                mhs[h2],
            )[k]).guid != pass_gpus(ctx, mhs[h])[j].guid,
    ensures
        same_tables_wf(ctx, fold_machines(ctx, mhs, now).0),
        ops_name_partitions(fold_machines(ctx, mhs, now).0),
        dropped(
            fold_machines(ctx, mhs, now).0,
            l,
            nmx_id(ctx.gpu_map.get(pass_gpus(ctx, mhs[h])[j].guid).unwrap()),
            pass_gpus(ctx, mhs[h])[j].guid,
        ),
    decreases mhs.len(),
{
    let g = pass_gpus(ctx, mhs[h])[j].guid;
    let pid = nmx_id(ctx.gpu_map.get(g).unwrap());
    let rest = mhs.drop_last();
    let mh = mhs.last();
    if h == mhs.len() - 1 {
        lemma_fold_machines_names(ctx, rest, now, l, pid, g);
        let (c, st) = fold_machines(ctx, rest, now);
        let inst = mh.instance.unwrap();
        let info = ctx.machine_nvlink_info.get(inst.machine_id).unwrap().unwrap();
        assert(c.machine_nvlink_info == ctx.machine_nvlink_info);
        assert(pass_gpus(ctx, mh) == info.gpus);
        assert(unwanted_in(c, inst, info.gpus[j], l));
        assert(members_placed_consistently(c));
        assert forall|k: int| 0 <= k < info.gpus.len() && k != j implies (#[trigger] info.gpus[k]).guid != info.gpus[j].guid by {
            assert(pass_gpus(ctx, mhs[h])[k] == info.gpus[k]);
        }
        lemma_fold_gpus_drops(c, inst, info, info.gpus, j, l);
    } else {
        assert(rest[h] == mhs[h]);
        assert forall|h2: int, k: int|
            0 <= h2 < rest.len() && 0 <= k < pass_gpus(ctx, rest[h2]).len() && (h2 != h || k != j) implies (#[trigger] pass_gpus(
                ctx,
                rest[h2],
            )[k]).guid != pass_gpus(ctx, rest[h])[j].guid by {
            assert(rest[h2] == mhs[h2]);
        }
        lemma_fold_machines_drops(ctx, rest, now, h, j, l);
        let (c, st) = fold_machines(ctx, rest, now);
        assert(pass_gpus(c, mh) == pass_gpus(ctx, mh));
        assert(members_placed_consistently(c));
        assert forall|k: int| 0 <= k < pass_gpus(c, mh).len() implies (#[trigger] pass_gpus(c, mh)[k]).guid != g by {
            assert(pass_gpus(ctx, mhs[mhs.len() - 1])[k].guid != g);
        }
        lemma_machine_step_names(c, st, mh, now, l, pid, g);
    }
}

proof fn lemma_merge_unknown_drops(ctx: PpcView, l: u128, pid: u32, g: u64)
    requires
        ctx.wf(),
        dropped(ctx, l, pid, g),
    ensures
        dropped(merge_unknown(ctx), l, pid, g),
{
    let extra = unknown_operations(ctx);
    if extra.len() > 0 {
        let base = match ctx.ops.get(0) {
            Some(x) => x,
            None => Seq::empty(),
        };
        if l == 0 {
            let list = ctx.ops.get(0).unwrap();
            let k = choose|k: int|
                0 <= k < list.len() && rewrites(#[trigger] list[k], pid) && !list[k].gpu_uids.contains(g);
            assert((base + extra)[k] == list[k]);
        }
        lemma_insert_get(ctx.ops, 0, base + extra, l);
    }
}

/// Law: over a whole pass, a GPU in a partition of logical partition `l`
/// that its instance no longer wants there ends up left out of an
/// operation queued under `l` that rewrites that partition, whatever the
/// pass does with the other GPUs. It holds from any state whose queued
/// operations rewrite the partition of each placed member (as a fresh
/// state, with nothing queued, does). Left out: a GPU whose UID the pass
/// meets more than once, a partition NMX-C does not report, and a GPU
/// listed in a partition other than the one the GPU map gives it (as when
/// NMX-C lists a GPU in two partitions).
pub proof fn lemma_pass_drops_unwanted_gpu(ctx: PpcView, mhs: Seq<ManagedHostView>, now: i64, h: int, j: int, l: u128)
    requires
        ctx.wf(),
        members_placed_consistently(ctx),
        ops_name_partitions(ctx),
        0 <= h < mhs.len(),
        mhs[h].instance matches Some(inst) && ctx.machine_nvlink_info.get(inst.machine_id) matches Some(Some(info)) && 0 <= j
            < info.gpus.len() && unwanted_in(ctx, inst, info.gpus[j], l),
        forall|h2: int, k: int|
            0 <= h2 < mhs.len() && 0 <= k < pass_gpus(ctx, mhs[h2]).len() && (h2 != h || k != j) ==> (#[trigger] pass_gpus(
                ctx,
                mhs[h2],
            )[k]).guid != pass_gpus(ctx, mhs[h])[j].guid,
    ensures
        dropped(
            check_partitions(ctx, mhs, now).0,
            l,
            nmx_id(ctx.gpu_map.get(pass_gpus(ctx, mhs[h])[j].guid).unwrap()),
            pass_gpus(ctx, mhs[h])[j].guid,
        ),
{
    let g = pass_gpus(ctx, mhs[h])[j].guid;
    lemma_fold_machines_drops(ctx, mhs, now, h, j, l);
    lemma_merge_unknown_drops(fold_machines(ctx, mhs, now).0, l, nmx_id(ctx.gpu_map.get(g).unwrap()), g);
}

/// GPU `gpu` sits in a partition NMX-C reports, stored by the database
/// under logical partition `l`.
pub open spec fn in_tenant_partition(ctx: PpcView, gpu: NvLinkGpu, l: u128) -> bool {
    &&& ctx.gpu_map.get(gpu.guid) matches Some(np) && ctx.db_partitions.get(nmx_id(np)) matches Some(p)
        && p.logical_partition_id == Some(l)
    &&& ctx.nmx_c_partitions.get(nmx_id(ctx.gpu_map.get(gpu.guid).unwrap())) is Some
}

proof fn lemma_release_gpu_drops(ctx: PpcView, info: MachineNvLinkInfoView, gpu: NvLinkGpu, l: u128)
    requires
        ctx.wf(),
        in_tenant_partition(ctx, gpu, l),
    ensures
        dropped(release_gpu(ctx, info, gpu), l, nmx_id(ctx.gpu_map.get(gpu.guid).unwrap()), gpu.guid),
{
    let np = ctx.gpu_map.get(gpu.guid).unwrap();
    let pid = nmx_id(np);
    let p = ctx.db_partitions.get(pid).unwrap();
    let gc = GpuCtxView {
        gpu_guid: gpu.guid,
        domain_uuid: info.domain_uuid,
        logical_partition_id: p.logical_partition_id,
        partition_id: Some(p.id),
        partition_name: p.name,
        partition_nmx_c_id: PartitionId { partition_id: pid },
    };
    let list = ctx.ops.get(l);
    let queued = match list {
        Some(x) => match find_first(x, crate::operation::covers_gpu(gpu.guid)) {
            Some(i) => Some(crate::seqs::without(x[i].gpu_uids, gpu.guid)),
            None => None,
        },
        None => None,
    };
    match queued {
        Some(q) => {
            let x = list.unwrap();
            let i = find_first(x, crate::operation::covers_gpu(gpu.guid)).unwrap();
            crate::seqs::lemma_without(x[i].gpu_uids, gpu.guid);
        },
        None => {
            crate::seqs::lemma_without(ctx.nmx_c_partitions.get(pid).unwrap().gpu_uid_list, gpu.guid);
        },
    }
    let k = ctx.keep_after_removal(Some(l), pid, gpu.guid).unwrap();
    let op = crate::context::removal_op(gc, k);
    assert(!op.gpu_uids.contains(gpu.guid));
    let merged = crate::context::queue(list, upsert_covering(list.unwrap(), gpu.guid, op, true), op);
    match list {
        Some(x) => lemma_upsert_drops(x, gpu.guid, op, pid),
        None => {
            assert(merged[0] == op);
        },
    }
    lemma_insert_get(ctx.ops, l, merged, l);
}

proof fn lemma_release_gpus_drops(ctx: PpcView, info: MachineNvLinkInfoView, gpus: Seq<NvLinkGpu>, j: int, l: u128)
    requires
        ctx.wf(),
        members_placed_consistently(ctx),
        ops_name_partitions(ctx),
        0 <= j < gpus.len(),
        in_tenant_partition(ctx, gpus[j], l),
        forall|k: int| 0 <= k < gpus.len() && k != j ==> (#[trigger] gpus[k]).guid != gpus[j].guid,
    ensures
        same_tables_wf(ctx, release_gpus(ctx, info, gpus)),
        ops_name_partitions(release_gpus(ctx, info, gpus)),
        dropped(release_gpus(ctx, info, gpus), l, nmx_id(ctx.gpu_map.get(gpus[j].guid).unwrap()), gpus[j].guid),
    decreases gpus.len(),
{
    let g = gpus[j].guid;
    let pid = nmx_id(ctx.gpu_map.get(g).unwrap());
    let rest = gpus.drop_last();
    lemma_release_gpus_names(ctx, info, rest, l, pid, g);
    let c = release_gpus(ctx, info, rest);
    let other: u64 = if gpus.last().guid == 0 {
        1
    } else {
        0
    };
    lemma_release_gpu_keeps(c, info, gpus.last(), 0, other);
    lemma_release_gpu_names(c, info, gpus.last(), l, pid, g);
    if j == gpus.len() - 1 {
        assert(in_tenant_partition(c, gpus[j], l));
        lemma_release_gpu_drops(c, info, gpus.last(), l);
    } else {
        assert(rest[j] == gpus[j]);
        assert forall|k: int| 0 <= k < rest.len() && k != j implies (#[trigger] rest[k]).guid != rest[j].guid by {
            assert(rest[k] == gpus[k]);
        }
        lemma_release_gpus_drops(ctx, info, rest, j, l);
        assert(gpus[gpus.len() - 1].guid != g);
    }
}

/// Law: releasing a host without instance on the admin network takes each
/// of its GPUs that NMX-C places in a partition the database stores under
/// logical partition `l` out of that partition: an operation queued under
/// `l` rewrites the partition without the GPU. Left out: a GPU whose UID the
/// host lists twice, a partition NMX-C does not report, and a GPU listed in
/// a partition other than the one the GPU map gives it.
pub proof fn lemma_released_gpu_leaves_tenant_partition(ctx: PpcView, mh: ManagedHostView, j: int, l: u128)
    requires
        ctx.wf(),
        members_placed_consistently(ctx),
        ops_name_partitions(ctx),
        mh.instance is None,
        on_admin_network(mh.dpu_snapshots),
        mh.nvlink_info matches Some(info) && 0 <= j < info.gpus.len() && in_tenant_partition(ctx, info.gpus[j], l)
            && forall|k: int| 0 <= k < info.gpus.len() && k != j ==> (#[trigger] info.gpus[k]).guid != info.gpus[j].guid,
    ensures
        dropped(
            release_host(ctx, mh),
            l,
            nmx_id(ctx.gpu_map.get(mh.nvlink_info.unwrap().gpus[j].guid).unwrap()),
            mh.nvlink_info.unwrap().gpus[j].guid,
        ),
{
    let info = mh.nvlink_info.unwrap();
    lemma_release_gpus_drops(ctx, info, info.gpus, j, l);
}

proof fn lemma_fold_machines_releases(ctx: PpcView, mhs: Seq<ManagedHostView>, now: i64, h: int, j: int, l: u128)
    requires
        ctx.wf(),
        members_placed_consistently(ctx),
        ops_name_partitions(ctx),
        0 <= h < mhs.len(),
        mhs[h].instance is None,
        on_admin_network(mhs[h].dpu_snapshots),
        mhs[h].nvlink_info matches Some(info) && 0 <= j < info.gpus.len() && in_tenant_partition(ctx, info.gpus[j], l),
        forall|h2: int, k: int|
            0 <= h2 < mhs.len() && 0 <= k < pass_gpus(ctx, mhs[h2]).len() && (h2 != h || k != j) ==> (#[trigger] pass_gpus(
                ctx,
                mhs[h2],
            )[k]).guid != pass_gpus(ctx, mhs[h])[j].guid,
    ensures
        same_tables_wf(ctx, fold_machines(ctx, mhs, now).0),
        ops_name_partitions(fold_machines(ctx, mhs, now).0),
        dropped(
            fold_machines(ctx, mhs, now).0,
            l,
            nmx_id(ctx.gpu_map.get(pass_gpus(ctx, mhs[h])[j].guid).unwrap()),
            pass_gpus(ctx, mhs[h])[j].guid,
        ),
    decreases mhs.len(),
{
    let g = pass_gpus(ctx, mhs[h])[j].guid;
    let pid = nmx_id(ctx.gpu_map.get(g).unwrap());
    let rest = mhs.drop_last();
    let mh = mhs.last();
    if h == mhs.len() - 1 {
        lemma_fold_machines_names(ctx, rest, now, l, pid, g);
        let (c, st) = fold_machines(ctx, rest, now);
        let info = mh.nvlink_info.unwrap();
        assert(pass_gpus(ctx, mh) == info.gpus);
        assert(in_tenant_partition(c, info.gpus[j], l));
        assert(members_placed_consistently(c));
        assert forall|k: int| 0 <= k < info.gpus.len() && k != j implies (#[trigger] info.gpus[k]).guid != info.gpus[j].guid by {
            assert(pass_gpus(ctx, mhs[h])[k] == info.gpus[k]);
        }
        lemma_release_gpus_drops(c, info, info.gpus, j, l);
    } else {
        assert(rest[h] == mhs[h]);
        assert forall|h2: int, k: int|
            0 <= h2 < rest.len() && 0 <= k < pass_gpus(ctx, rest[h2]).len() && (h2 != h || k != j) implies (#[trigger] pass_gpus(
                ctx,
                rest[h2],
            )[k]).guid != pass_gpus(ctx, rest[h])[j].guid by {
            assert(rest[h2] == mhs[h2]);
        }
        lemma_fold_machines_releases(ctx, rest, now, h, j, l);
        let (c, st) = fold_machines(ctx, rest, now);
        assert(pass_gpus(c, mh) == pass_gpus(ctx, mh));
        assert(members_placed_consistently(c));
        assert forall|k: int| 0 <= k < pass_gpus(c, mh).len() implies (#[trigger] pass_gpus(c, mh)[k]).guid != g by {
            assert(pass_gpus(ctx, mhs[mhs.len() - 1])[k].guid != g);
        }
        lemma_machine_step_names(c, st, mh, now, l, pid, g);
    }
}

/// Law: over a whole pass, each GPU of a host without instance on the admin
/// network that NMX-C places in a partition the database stores under
/// logical partition `l` ends up left out of an operation queued under `l`
/// that rewrites that partition, whatever the pass does with the other
/// GPUs. It holds from any state whose queued operations rewrite the
/// partition of each placed member (as a fresh state does). Left out: a GPU
/// whose UID the pass meets more than once, a partition NMX-C does not
/// report, and a GPU listed in a partition other than the one the GPU map
/// gives it.
pub proof fn lemma_pass_releases_gpu(ctx: PpcView, mhs: Seq<ManagedHostView>, now: i64, h: int, j: int, l: u128)
    requires
        ctx.wf(),
        members_placed_consistently(ctx),
        ops_name_partitions(ctx),
        0 <= h < mhs.len(),
        mhs[h].instance is None,
        on_admin_network(mhs[h].dpu_snapshots),
        mhs[h].nvlink_info matches Some(info) && 0 <= j < info.gpus.len() && in_tenant_partition(ctx, info.gpus[j], l),
        forall|h2: int, k: int|
            0 <= h2 < mhs.len() && 0 <= k < pass_gpus(ctx, mhs[h2]).len() && (h2 != h || k != j) ==> (#[trigger] pass_gpus(
                ctx,
                mhs[h2],
            )[k]).guid != pass_gpus(ctx, mhs[h])[j].guid,
    ensures
        dropped(
            check_partitions(ctx, mhs, now).0,
            l,
            nmx_id(ctx.gpu_map.get(mhs[h].nvlink_info.unwrap().gpus[j].guid).unwrap()),
            mhs[h].nvlink_info.unwrap().gpus[j].guid,
        ),
{
    let g = pass_gpus(ctx, mhs[h])[j].guid;
    assert(pass_gpus(ctx, mhs[h]) == mhs[h].nvlink_info.unwrap().gpus);
    lemma_fold_machines_releases(ctx, mhs, now, h, j, l);
    lemma_merge_unknown_drops(fold_machines(ctx, mhs, now).0, l, nmx_id(ctx.gpu_map.get(g).unwrap()), g);
}

/// Host `mh` carries an instance on machine `k`.
pub open spec fn has_instance_on(mh: ManagedHostView, k: u128) -> bool {
    mh.instance matches Some(i) && i.machine_id == k
}

/// Machine `k` is the machine of an instance on one of the hosts `mhs`.
pub open spec fn instance_machine(mhs: Seq<ManagedHostView>, k: u128) -> bool {
    exists|h: int| 0 <= h < mhs.len() && has_instance_on(#[trigger] mhs[h], k)
}

/// How many of the hosts `mhs` have an instance.
pub open spec fn instances_in(mhs: Seq<ManagedHostView>) -> nat
    decreases mhs.len(),
{
    if mhs.len() == 0 {
        0
    } else {
        instances_in(mhs.drop_last()) + if mhs.last().instance is Some {
            1nat
        } else {
            0nat
        }
    }
}

/// How many GPUs the pass looks at on host `mh`: those of its instance's
/// machine, when the machine's NvLink information is known.
pub open spec fn host_gpus_scanned(ctx: PpcView, mh: ManagedHostView) -> nat {
    match mh.instance {
        Some(inst) => match ctx.machine_nvlink_info.get(inst.machine_id) {
            Some(Some(info)) => info.gpus.len(),
            _ => 0,
        },
        None => 0,
    }
}

/// How many GPUs the pass looks at on the hosts `mhs`.
pub open spec fn gpus_scanned(ctx: PpcView, mhs: Seq<ManagedHostView>) -> nat
    decreases mhs.len(),
{
    if mhs.len() == 0 {
        0
    } else {
        gpus_scanned(ctx, mhs.drop_last()) + host_gpus_scanned(ctx, mhs.last())
    }
}

/// The counts over a prefix of the hosts are at most those over all of them.
proof fn lemma_counts_monotone(ctx: PpcView, mhs: Seq<ManagedHostView>, i: int)
    requires
        0 <= i <= mhs.len(),
    ensures
        instances_in(mhs.take(i)) <= instances_in(mhs),
        gpus_scanned(ctx, mhs.take(i)) <= gpus_scanned(ctx, mhs),
    decreases mhs.len() - i,
{
    if i < mhs.len() {
        lemma_counts_monotone(ctx, mhs, i + 1);
        assert(mhs.take(i + 1).drop_last() =~= mhs.take(i));
    } else {
        assert(mhs.take(i) =~= mhs);
    }
}

/// The observations of a pass are keyed by exactly the instance machines.
proof fn lemma_fold_machines_keys(ctx: PpcView, mhs: Seq<ManagedHostView>, now: i64)
    ensures
        fold_machines(ctx, mhs, now).1.wf(),
        forall|k: u128| #[trigger] fold_machines(ctx, mhs, now).1.contains(k) <==> instance_machine(mhs, k),
    decreases mhs.len(),
{
    if mhs.len() > 0 {
        let rest = mhs.drop_last();
        lemma_fold_machines_keys(ctx, rest, now);
        let (c, st) = fold_machines(ctx, rest, now);
        let mh = mhs.last();
        assert forall|k: u128| #[trigger] fold_machines(ctx, mhs, now).1.contains(k) <==> instance_machine(mhs, k) by {
            if instance_machine(rest, k) {
                let h = choose|h: int| 0 <= h < rest.len() && has_instance_on(#[trigger] rest[h], k);
                assert(mhs[h] == rest[h]);
            }
            if instance_machine(mhs, k) {
                let h = choose|h: int| 0 <= h < mhs.len() && has_instance_on(#[trigger] mhs[h], k);
                if h < rest.len() {
                    assert(mhs[h] == rest[h]);
                }
            }
            match mh.instance {
                Some(inst) => {
                    let v = match c.machine_nvlink_info.get(inst.machine_id) {
                        Some(Some(info)) => StatusObservationView {
                            observed_at: now,
                            nvlink_gpus: fold_gpus(c, inst, info, info.gpus).1,
                        },
                        _ => empty_observation(now),
                    };
                    lemma_insert_get(st, inst.machine_id, v, k);
                    assert(mhs[mhs.len() - 1] == mh);
                },
                None => {},
            }
        }
        match mh.instance {
            Some(inst) => {
                let v = match c.machine_nvlink_info.get(inst.machine_id) {
                    Some(Some(info)) => StatusObservationView {
                        observed_at: now,
                        nvlink_gpus: fold_gpus(c, inst, info, info.gpus).1,
                    },
                    _ => empty_observation(now),
                };
                lemma_insert_get(st, inst.machine_id, v, 0);
            },
            None => {},
        }
    }
}

/// Observation `o` says where NMX-C places its GPU: in the logical
/// partition and database partition the database stores for the GPU's
/// NMX-C partition, or in none when the GPU is in no partition or in one the
/// database does not know.
pub open spec fn observed_as_placed(ctx: PpcView, o: GpuObservationView) -> bool {
    match ctx.gpu_map.get(o.guid) {
        Some(np) => match ctx.db_partitions.get(nmx_id(np)) {
            Some(p) => o.logical_partition_id == p.logical_partition_id && o.partition_id == Some(p.id),
            None => o.logical_partition_id is None && o.partition_id is None,
        },
        None => o.logical_partition_id is None && o.partition_id is None,
    }
}

/// Law: the observation a GPU step reports is of that GPU, on the domain of
/// its machine, and says where NMX-C places the GPU, never where the
/// instance asks for it.
pub proof fn lemma_gpu_observation_as_placed(ctx: PpcView, inst: InstanceView, info: MachineNvLinkInfoView, gpu: NvLinkGpu)
    ensures
        gpu_step(ctx, inst, info, gpu).1 matches Some(o) ==> o.guid == gpu.guid && o.domain_id == info.domain_uuid
            && observed_as_placed(ctx, o),
{
    let dec = decide_gpu(ctx, inst, info, gpu);
    match ctx.gpu_map.get(gpu.guid) {
        Some(np) => {
            let pid = nmx_id(np);
            match ctx.db_partitions.get(pid) {
                Some(p) => {
                    assert(dec.obs.logical_partition_id == p.logical_partition_id);
                    assert(dec.obs.partition_id == Some(p.id));
                },
                None => {
                    assert(dec.obs.logical_partition_id is None);
                },
            }
        },
        None => {
            assert(dec.obs.logical_partition_id is None);
            assert(dec.obs.partition_id is None);
        },
    }
    assert(dec.obs.guid == gpu.guid);
}

proof fn lemma_fold_gpus_tables(ctx: PpcView, inst: InstanceView, info: MachineNvLinkInfoView, gpus: Seq<NvLinkGpu>)
    requires
        ctx.wf(),
    ensures
        same_tables_wf(ctx, fold_gpus(ctx, inst, info, gpus).0),
        forall|i: int| 0 <= i < fold_gpus(ctx, inst, info, gpus).1.len() ==> observed_as_placed(
            ctx,
            #[trigger] fold_gpus(ctx, inst, info, gpus).1[i],
        ),
    decreases gpus.len(),
{
    if gpus.len() > 0 {
        let rest = gpus.drop_last();
        lemma_fold_gpus_tables(ctx, inst, info, rest);
        let (c, obs) = fold_gpus(ctx, inst, info, rest);
        lemma_gpu_step_tables(c, inst, info, gpus.last());
        lemma_gpu_observation_as_placed(c, inst, info, gpus.last());
        let all = fold_gpus(ctx, inst, info, gpus).1;
        assert forall|i: int| 0 <= i < all.len() implies observed_as_placed(ctx, #[trigger] all[i]) by {
            if i < obs.len() {
                assert(all[i] == obs[i]);
            }
        }
    }
}

proof fn lemma_release_gpus_tables(ctx: PpcView, info: MachineNvLinkInfoView, gpus: Seq<NvLinkGpu>)
    requires
        ctx.wf(),
    ensures
        same_tables_wf(ctx, release_gpus(ctx, info, gpus)),
    decreases gpus.len(),
{
    if gpus.len() > 0 {
        lemma_release_gpus_tables(ctx, info, gpus.drop_last());
        let c = release_gpus(ctx, info, gpus.drop_last());
        let other: u64 = if gpus.last().guid == 0 {
            1
        } else {
            0
        };
        lemma_release_gpu_keeps(c, info, gpus.last(), 0, other);
    }
}

/// Every observation a pass over the hosts `mhs` makes says where NMX-C
/// places the GPU.
pub open spec fn statuses_as_placed(ctx: PpcView, st: KeyedView<u128, StatusObservationView>) -> bool {
    forall|k: u128| #![trigger st.get(k)] st.get(k) is Some ==> forall|i: int|
        0 <= i < st.get(k).unwrap().nvlink_gpus.len() ==> observed_as_placed(ctx, #[trigger] st.get(k).unwrap().nvlink_gpus[i])
}

proof fn lemma_fold_machines_observations(ctx: PpcView, mhs: Seq<ManagedHostView>, now: i64)
    requires
        ctx.wf(),
    ensures
        same_tables_wf(ctx, fold_machines(ctx, mhs, now).0),
        fold_machines(ctx, mhs, now).1.wf(),
        statuses_as_placed(ctx, fold_machines(ctx, mhs, now).1),
    decreases mhs.len(),
{
    if mhs.len() > 0 {
        let rest = mhs.drop_last();
        lemma_fold_machines_observations(ctx, rest, now);
        lemma_fold_machines_keys(ctx, mhs, now);
        let (c, st) = fold_machines(ctx, rest, now);
        let mh = mhs.last();
        match mh.instance {
            None => {
                if on_admin_network(mh.dpu_snapshots) {
                    match mh.nvlink_info {
                        Some(info) => lemma_release_gpus_tables(c, info, info.gpus),
                        None => {},
                    }
                }
            },
            Some(inst) => {
                let v = match c.machine_nvlink_info.get(inst.machine_id) {
                    Some(Some(info)) => {
                        lemma_fold_gpus_tables(c, inst, info, info.gpus);
                        StatusObservationView { observed_at: now, nvlink_gpus: fold_gpus(c, inst, info, info.gpus).1 }
                    },
                    _ => empty_observation(now),
                };
                let st2 = st.insert(inst.machine_id, v);
                assert forall|k: u128| #![trigger st2.get(k)] st2.get(k) is Some implies forall|i: int|
                    0 <= i < st2.get(k).unwrap().nvlink_gpus.len() ==> observed_as_placed(
                        ctx,
                        #[trigger] st2.get(k).unwrap().nvlink_gpus[i],
                    ) by {
                    lemma_insert_get(st, inst.machine_id, v, k);
                }
            },
        }
    }
}

/// Law: every GPU observation a whole pass reports says where NMX-C places
/// the GPU: the logical partition and database partition the database
/// stores for the GPU's NMX-C partition, or none when the GPU is in no
/// partition or in one the database does not know.
pub proof fn lemma_pass_observations_as_placed(ctx: PpcView, mhs: Seq<ManagedHostView>, now: i64)
    requires
        ctx.wf(),
    ensures
        statuses_as_placed(ctx, check_partitions(ctx, mhs, now).1),
{
    lemma_fold_machines_observations(ctx, mhs, now);
}

/// Some operation of `list` rewrites NMX-C partition `pid` (deleting it or
/// setting its members) without GPU `g`.
pub open spec fn some_op_drops_unknown(list: Seq<OpView>, pid: u32, g: u64) -> bool {
    exists|k: int|
        0 <= k < list.len() && ((#[trigger] list[k]).operation_type == NmxcPartitionOperationType::RemoveUnknownPartition(
            pid,
        ) || list[k].operation_type == NmxcPartitionOperationType::Update(pid)) && !list[k].gpu_uids.contains(g)
}

/// A removal queued for NMX-C partition `pid`, which the database does not
/// know, rewrites it without GPU `g`.
pub open spec fn unknown_dropped(ctx: PpcView, pid: u32, g: u64) -> bool {
    ctx.unknown_removals.get(pid) matches Some(list) && some_op_drops_unknown(list, pid, g)
}

/// Queuing the removal of GPU `g2` from unknown partition `pid2`, keeping
/// `k` as `keep_in_unknown_after_removal` gives it, keeps `g` dropped, and
/// drops `g2`.
proof fn lemma_unknown_removal_drops(ctx: PpcView, pid2: u32, g2: u64, k: Seq<u64>, pid: u32, g: u64)
    requires
        ctx.wf(),
        ctx.keep_in_unknown_after_removal(pid2, g2) == Some(k),
    ensures
        ctx.after_unknown_removal(pid2, g2, k).wf(),
        same_tables(ctx, ctx.after_unknown_removal(pid2, g2, k)),
        ctx.after_unknown_removal(pid2, g2, k).ops == ctx.ops,
        unknown_dropped(ctx.after_unknown_removal(pid2, g2, k), pid2, g2),
        g2 != g && unknown_dropped(ctx, pid, g) ==> unknown_dropped(ctx.after_unknown_removal(pid2, g2, k), pid, g),
{
    let op = crate::context::unknown_removal_op(pid2, k);
    let list = ctx.unknown_removals.get(pid2);
    let merged = crate::context::queue(list, upsert_covering(list.unwrap(), g2, op, false), op);
    lemma_insert_get(ctx.unknown_removals, pid2, merged, pid2);
    lemma_insert_get(ctx.unknown_removals, pid2, merged, pid);
    if list is Some {
        lemma_find_first(list.unwrap(), crate::operation::covers_gpu(g2));
    }
    let queued = match list {
        Some(x) => match find_first(x, crate::operation::covers_gpu(g2)) {
            Some(i) => Some(crate::seqs::without(x[i].gpu_uids, g2)),
            None => None,
        },
        None => None,
    };
    match queued {
        Some(q) => {
            let x = list.unwrap();
            let i = find_first(x, crate::operation::covers_gpu(g2)).unwrap();
            crate::seqs::lemma_without(x[i].gpu_uids, g2);
        },
        None => {
            crate::seqs::lemma_without(ctx.nmx_c_partitions.get(pid2).unwrap().gpu_uid_list, g2);
        },
    }
    assert(!op.gpu_uids.contains(g2));
    match list {
        Some(x) => {
            let r = upsert_covering(x, g2, op, false);
            match find_first(x, crate::operation::covers_gpu(g2)) {
                Some(i) => {
                    assert(r[i].operation_type == op.operation_type && r[i].gpu_uids == op.gpu_uids);
                    if pid2 == pid && g2 != g && unknown_dropped(ctx, pid, g) {
                        let kk = choose|kk: int|
                            0 <= kk < x.len() && ((#[trigger] x[kk]).operation_type
                                == NmxcPartitionOperationType::RemoveUnknownPartition(pid) || x[kk].operation_type
                                == NmxcPartitionOperationType::Update(pid)) && !x[kk].gpu_uids.contains(g);
                        if kk == i {
                            crate::seqs::lemma_without(x[i].gpu_uids, g2);
                            assert(!r[kk].gpu_uids.contains(g));
                        } else {
                            assert(r[kk] == x[kk]);
                        }
                    }
                },
                None => {
                    assert(r[x.len() as int] == op);
                    if pid2 == pid && g2 != g && unknown_dropped(ctx, pid, g) {
                        let kk = choose|kk: int|
                            0 <= kk < x.len() && ((#[trigger] x[kk]).operation_type
                                == NmxcPartitionOperationType::RemoveUnknownPartition(pid) || x[kk].operation_type
                                == NmxcPartitionOperationType::Update(pid)) && !x[kk].gpu_uids.contains(g);
                        assert(r[kk] == x[kk]);
                    }
                },
            }
        },
        None => {
            assert(merged[0] == op);
        },
    }
}

/// Law: a GPU of an instance that NMX-C places in a partition the database
/// does not know is taken out of it by its step (a removal queued for that
/// partition rewrites it without the GPU), except when that partition is the
/// default partition and the instance asks nothing of the GPU. Left out: a
/// partition whose members cannot be found.
pub proof fn lemma_gpu_in_unknown_partition_gets_dropped(
    ctx: PpcView,
    inst: InstanceView,
    info: MachineNvLinkInfoView,
    gpu: NvLinkGpu,
)
    requires
        ctx.wf(),
        ctx.gpu_map.get(gpu.guid) matches Some(np) && ctx.db_partitions.get(nmx_id(np)) is None
            && ctx.nmx_c_partitions.get(nmx_id(np)) is Some,
        !(is_default_partition(ctx.gpu_map.get(gpu.guid).unwrap()) && gpu_config_for(
            inst.gpu_configs,
            (gpu.device_id - 1) as u32,
        ) is None),
    ensures
        unknown_dropped(gpu_step(ctx, inst, info, gpu).0, nmx_id(ctx.gpu_map.get(gpu.guid).unwrap()), gpu.guid),
{
    let pid = nmx_id(ctx.gpu_map.get(gpu.guid).unwrap());
    let dec = decide_gpu(ctx, inst, info, gpu);
    assert(dec.action == GpuAction::RemoveFromUnknownPartition);
    assert(!dec.skip);
    assert(dec.g.partition_nmx_c_id.partition_id == pid);
    assert(dec.g.logical_partition_id is None);
    let k = ctx.keep_in_unknown_after_removal(pid, gpu.guid).unwrap();
    lemma_unknown_removal_drops(ctx, pid, gpu.guid, k, pid, gpu.guid);
}

proof fn lemma_gpu_step_keeps_unknown(ctx: PpcView, inst: InstanceView, info: MachineNvLinkInfoView, gpu: NvLinkGpu, pid: u32, g: u64)
    requires
        ctx.wf(),
        gpu.guid != g,
        unknown_dropped(ctx, pid, g),
    ensures
        unknown_dropped(gpu_step(ctx, inst, info, gpu).0, pid, g),
{
    let dec = decide_gpu(ctx, inst, info, gpu);
    let gc = dec.g;
    let usable_skip = match gc.logical_partition_id {
        Some(x) => !ctx.logical_partition_usable(x),
        None => false,
    };
    if !(dec.skip || usable_skip) && dec.action == GpuAction::RemoveFromUnknownPartition {
        let pid2 = gc.partition_nmx_c_id.partition_id;
        match ctx.keep_in_unknown_after_removal(pid2, gpu.guid) {
            Some(k) => lemma_unknown_removal_drops(ctx, pid2, gpu.guid, k, pid, g),
            None => {},
        }
    }
}

proof fn lemma_fold_gpus_keeps_unknown(ctx: PpcView, inst: InstanceView, info: MachineNvLinkInfoView, gpus: Seq<NvLinkGpu>, pid: u32, g: u64)
    requires
        ctx.wf(),
        forall|k: int| 0 <= k < gpus.len() ==> (#[trigger] gpus[k]).guid != g,
        unknown_dropped(ctx, pid, g),
    ensures
        unknown_dropped(fold_gpus(ctx, inst, info, gpus).0, pid, g),
    decreases gpus.len(),
{
    if gpus.len() > 0 {
        let rest = gpus.drop_last();
        assert forall|k: int| 0 <= k < rest.len() implies (#[trigger] rest[k]).guid != g by {
            assert(rest[k] == gpus[k]);
        }
        lemma_fold_gpus_keeps_unknown(ctx, inst, info, rest, pid, g);
        lemma_fold_gpus_tables(ctx, inst, info, rest);
        let c = fold_gpus(ctx, inst, info, rest).0;
        assert(gpus[gpus.len() - 1].guid != g);
        lemma_gpu_step_keeps_unknown(c, inst, info, gpus.last(), pid, g);
    }
}

proof fn lemma_release_gpus_keeps_unknown(ctx: PpcView, info: MachineNvLinkInfoView, gpus: Seq<NvLinkGpu>, pid: u32, g: u64)
    requires
        ctx.wf(),
        unknown_dropped(ctx, pid, g),
    ensures
        unknown_dropped(release_gpus(ctx, info, gpus), pid, g),
    decreases gpus.len(),
{
    if gpus.len() > 0 {
        lemma_release_gpus_keeps_unknown(ctx, info, gpus.drop_last(), pid, g);
        lemma_release_gpus_tables(ctx, info, gpus.drop_last());
    }
}

proof fn lemma_machine_step_keeps_unknown(
    ctx: PpcView,
    st: KeyedView<u128, StatusObservationView>,
    mh: ManagedHostView,
    now: i64,
    pid: u32,
    g: u64,
)
    requires
        ctx.wf(),
        forall|k: int| 0 <= k < pass_gpus(ctx, mh).len() ==> (#[trigger] pass_gpus(ctx, mh)[k]).guid != g,
        unknown_dropped(ctx, pid, g),
    ensures
        unknown_dropped(machine_step(ctx, st, mh, now).0, pid, g),
{
    match mh.instance {
        None => if on_admin_network(mh.dpu_snapshots) {
            match mh.nvlink_info {
                Some(info) => lemma_release_gpus_keeps_unknown(ctx, info, info.gpus, pid, g),
                None => {},
            }
        },
        Some(inst) => match ctx.machine_nvlink_info.get(inst.machine_id) {
            Some(Some(info)) => {
                assert forall|k: int| 0 <= k < info.gpus.len() implies (#[trigger] info.gpus[k]).guid != g by {
                    assert(pass_gpus(ctx, mh)[k] == info.gpus[k]);
                }
                lemma_fold_gpus_keeps_unknown(ctx, inst, info, info.gpus, pid, g);
            },
            _ => {},
        },
    }
}

proof fn lemma_fold_gpus_drops_unknown(ctx: PpcView, inst: InstanceView, info: MachineNvLinkInfoView, gpus: Seq<NvLinkGpu>, j: int)
    requires
        ctx.wf(),
        0 <= j < gpus.len(),
        ctx.gpu_map.get(gpus[j].guid) matches Some(np) && ctx.db_partitions.get(nmx_id(np)) is None
            && ctx.nmx_c_partitions.get(nmx_id(np)) is Some,
        !(is_default_partition(ctx.gpu_map.get(gpus[j].guid).unwrap()) && gpu_config_for(
            inst.gpu_configs,
            (gpus[j].device_id - 1) as u32,
        ) is None),
        forall|k: int| 0 <= k < gpus.len() && k != j ==> (#[trigger] gpus[k]).guid != gpus[j].guid,
    ensures
        unknown_dropped(fold_gpus(ctx, inst, info, gpus).0, nmx_id(ctx.gpu_map.get(gpus[j].guid).unwrap()), gpus[j].guid),
    decreases gpus.len(),
{
    let g = gpus[j].guid;
    let pid = nmx_id(ctx.gpu_map.get(g).unwrap());
    let rest = gpus.drop_last();
    lemma_fold_gpus_tables(ctx, inst, info, rest);
    let c = fold_gpus(ctx, inst, info, rest).0;
    if j == gpus.len() - 1 {
        lemma_gpu_in_unknown_partition_gets_dropped(c, inst, info, gpus.last());
    } else {
        assert(rest[j] == gpus[j]);
        assert forall|k: int| 0 <= k < rest.len() && k != j implies (#[trigger] rest[k]).guid != rest[j].guid by {
            assert(rest[k] == gpus[k]);
        }
        lemma_fold_gpus_drops_unknown(ctx, inst, info, rest, j);
        assert(gpus[gpus.len() - 1].guid != g);
        lemma_gpu_step_keeps_unknown(c, inst, info, gpus.last(), pid, g);
    }
}

proof fn lemma_fold_machines_drops_unknown(ctx: PpcView, mhs: Seq<ManagedHostView>, now: i64, h: int, j: int)
    requires
        ctx.wf(),
        0 <= h < mhs.len(),
        mhs[h].instance matches Some(inst) && ctx.machine_nvlink_info.get(inst.machine_id) matches Some(Some(info)) && 0 <= j
            < info.gpus.len() && (ctx.gpu_map.get(info.gpus[j].guid) matches Some(np) && ctx.db_partitions.get(nmx_id(np))
            is None && ctx.nmx_c_partitions.get(nmx_id(np)) is Some) && !(is_default_partition(
            ctx.gpu_map.get(info.gpus[j].guid).unwrap(),
        ) && gpu_config_for(inst.gpu_configs, (info.gpus[j].device_id - 1) as u32) is None),
        forall|h2: int, k: int|
            0 <= h2 < mhs.len() && 0 <= k < pass_gpus(ctx, mhs[h2]).len() && (h2 != h || k != j) ==> (#[trigger] pass_gpus(
                ctx,
                mhs[h2],
            )[k]).guid != pass_gpus(ctx, mhs[h])[j].guid,
    ensures
        unknown_dropped(
            fold_machines(ctx, mhs, now).0,
            nmx_id(ctx.gpu_map.get(pass_gpus(ctx, mhs[h])[j].guid).unwrap()),
            pass_gpus(ctx, mhs[h])[j].guid,
        ),
    decreases mhs.len(),
{
    let g = pass_gpus(ctx, mhs[h])[j].guid;
    let pid = nmx_id(ctx.gpu_map.get(g).unwrap());
    let rest = mhs.drop_last();
    let mh = mhs.last();
    lemma_fold_machines_observations(ctx, rest, now);
    let (c, st) = fold_machines(ctx, rest, now);
    if h == mhs.len() - 1 {
        let inst = mh.instance.unwrap();
        let info = ctx.machine_nvlink_info.get(inst.machine_id).unwrap().unwrap();
        assert(c.machine_nvlink_info == ctx.machine_nvlink_info);
        assert(pass_gpus(ctx, mh) == info.gpus);
        assert forall|k: int| 0 <= k < info.gpus.len() && k != j implies (#[trigger] info.gpus[k]).guid != info.gpus[j].guid by {
            assert(pass_gpus(ctx, mhs[h])[k] == info.gpus[k]);
        }
        lemma_fold_gpus_drops_unknown(c, inst, info, info.gpus, j);
    } else {
        assert(rest[h] == mhs[h]);
        assert forall|h2: int, k: int|
            0 <= h2 < rest.len() && 0 <= k < pass_gpus(ctx, rest[h2]).len() && (h2 != h || k != j) implies (#[trigger] pass_gpus(
                ctx,
                rest[h2],
            )[k]).guid != pass_gpus(ctx, rest[h])[j].guid by {
            assert(rest[h2] == mhs[h2]);
        }
        lemma_fold_machines_drops_unknown(ctx, rest, now, h, j);
        assert(pass_gpus(c, mh) == pass_gpus(ctx, mh));
        assert forall|k: int| 0 <= k < pass_gpus(c, mh).len() implies (#[trigger] pass_gpus(c, mh)[k]).guid != g by {
            assert(pass_gpus(ctx, mhs[mhs.len() - 1])[k].guid != g);
        }
        lemma_machine_step_keeps_unknown(c, st, mh, now, pid, g);
    }
}

proof fn lemma_flatten_holds(lists: Seq<Seq<OpView>>, a: int, b: int)
    requires
        0 <= a < lists.len(),
        0 <= b < lists[a].len(),
    ensures
        exists|i: int| 0 <= i < flatten(lists).len() && flatten(lists)[i] == lists[a][b],
    decreases lists.len(),
{
    let rest = lists.drop_last();
    if a == lists.len() - 1 {
        let i = flatten(rest).len() + b;
        assert(flatten(lists)[i] == lists[a][b]);
    } else {
        assert(rest[a] == lists[a]);
        lemma_flatten_holds(rest, a, b);
        let i = choose|i: int| 0 <= i < flatten(rest).len() && flatten(rest)[i] == rest[a][b];
        assert(flatten(lists)[i] == lists[a][b]);
    }
}

proof fn lemma_merge_unknown_queues_drop(ctx: PpcView, pid: u32, g: u64)
    requires
        ctx.wf(),
        unknown_dropped(ctx, pid, g),
    ensures
        merge_unknown(ctx).ops.get(0) matches Some(list) && some_op_drops_unknown(list, pid, g),
{
    let list = ctx.unknown_removals.get(pid).unwrap();
    let kk = choose|kk: int|
        0 <= kk < list.len() && ((#[trigger] list[kk]).operation_type == NmxcPartitionOperationType::RemoveUnknownPartition(
            pid,
        ) || list[kk].operation_type == NmxcPartitionOperationType::Update(pid)) && !list[kk].gpu_uids.contains(g);
    let a = ctx.unknown_removals.keys.index_of(pid);
    assert(ctx.unknown_removals.vals[a] == list);
    lemma_flatten_holds(ctx.unknown_removals.vals, a, kk);
    let fl = flatten(ctx.unknown_removals.vals);
    let i = choose|i: int| 0 <= i < fl.len() && fl[i] == ctx.unknown_removals.vals[a][kk];
    let extra = unknown_operations(ctx);
    assert(extra[i] == list[kk]);
    let base = match ctx.ops.get(0) {
        Some(x) => x,
        None => Seq::empty(),
    };
    assert((base + extra)[base.len() + i] == list[kk]);
    lemma_insert_get(ctx.ops, 0, base + extra, 0);
}

/// Law: over a whole pass, a GPU of an instance that NMX-C places in a
/// partition the database does not know ends up left out of an operation
/// queued under the nil logical partition that rewrites that partition,
/// except when it is the default partition and the instance asks nothing of
/// the GPU, whatever the pass does with the other GPUs. Left out: a GPU
/// whose UID the pass meets more than once, and a partition whose members
/// cannot be found.
pub proof fn lemma_pass_takes_gpu_out_of_unknown_partition(ctx: PpcView, mhs: Seq<ManagedHostView>, now: i64, h: int, j: int)
    requires
        ctx.wf(),
        0 <= h < mhs.len(),
        mhs[h].instance matches Some(inst) && ctx.machine_nvlink_info.get(inst.machine_id) matches Some(Some(info)) && 0 <= j
            < info.gpus.len() && (ctx.gpu_map.get(info.gpus[j].guid) matches Some(np) && ctx.db_partitions.get(nmx_id(np))
            is None && ctx.nmx_c_partitions.get(nmx_id(np)) is Some) && !(is_default_partition(
            ctx.gpu_map.get(info.gpus[j].guid).unwrap(),
        ) && gpu_config_for(inst.gpu_configs, (info.gpus[j].device_id - 1) as u32) is None),
        forall|h2: int, k: int|
            0 <= h2 < mhs.len() && 0 <= k < pass_gpus(ctx, mhs[h2]).len() && (h2 != h || k != j) ==> (#[trigger] pass_gpus(
                ctx,
                mhs[h2],
            )[k]).guid != pass_gpus(ctx, mhs[h])[j].guid,
    ensures
        check_partitions(ctx, mhs, now).0.ops.get(0) matches Some(list) && some_op_drops_unknown(
            list,
            nmx_id(ctx.gpu_map.get(pass_gpus(ctx, mhs[h])[j].guid).unwrap()),
            pass_gpus(ctx, mhs[h])[j].guid,
        ),
{
    let g = pass_gpus(ctx, mhs[h])[j].guid;
    lemma_fold_machines_drops_unknown(ctx, mhs, now, h, j);
    lemma_fold_machines_observations(ctx, mhs, now);
    lemma_merge_unknown_queues_drop(fold_machines(ctx, mhs, now).0, nmx_id(ctx.gpu_map.get(g).unwrap()), g);
}

/// An addition queued for NMX-C partition `q` puts GPU `g` into it.
pub open spec fn addition_queued(ctx: PpcView, q: u32, g: u64) -> bool {
    ctx.unknown_additions.get(q) matches Some(o) && o.operation_type == NmxcPartitionOperationType::Update(q)
        && o.gpu_uids.contains(g)
}

/// Each queued addition sets the members of the partition it is queued for.
pub open spec fn additions_update_own(ctx: PpcView) -> bool {
    forall|q: u32| #![trigger ctx.unknown_additions.get(q)] ctx.unknown_additions.get(q) is Some
        ==> ctx.unknown_additions.get(q).unwrap().operation_type == NmxcPartitionOperationType::Update(q)
}

/// The GPU in no partition of a host without instance goes to the default
/// partition, when there is one with an id.
pub open spec fn goes_to_default(ctx: PpcView, gpu: NvLinkGpu) -> bool {
    &&& ctx.gpu_map.get(gpu.guid) is None
    &&& default_partition(ctx) matches Some(dp) && dp.partition_id is Some
}

proof fn lemma_release_gpu_additions(ctx: PpcView, info: MachineNvLinkInfoView, gpu: NvLinkGpu, q: u32, g: u64)
    requires
        ctx.wf(),
        additions_update_own(ctx),
    ensures
        additions_update_own(release_gpu(ctx, info, gpu)),
        addition_queued(ctx, q, g) ==> addition_queued(release_gpu(ctx, info, gpu), q, g),
        goes_to_default(ctx, gpu) ==> addition_queued(
            release_gpu(ctx, info, gpu),
            default_partition(ctx).unwrap().partition_id.unwrap().partition_id,
            gpu.guid,
        ),
{
    let other: u64 = if gpu.guid == 0 {
        1
    } else {
        0
    };
    lemma_release_gpu_keeps(ctx, info, gpu, 0, other);
    match ctx.gpu_map.get(gpu.guid) {
        None => match default_partition(ctx) {
            Some(dp) => match dp.partition_id {
                Some(pid) => {
                    let p = pid.partition_id;
                    let op = match ctx.unknown_additions.get(p) {
                        Some(o) => if o.gpu_uids.contains(gpu.guid) {
                            o
                        } else {
                            OpView { gpu_uids: o.gpu_uids.push(gpu.guid), ..o }
                        },
                        None => OpView {
                            domain_uuid: None,
                            operation_type: NmxcPartitionOperationType::Update(p),
                            gpu_uids: dp.gpu_uid_list.push(gpu.guid),
                            name: Seq::empty(),
                            db_partition_id: None,
                        },
                    };
                    let c = release_gpu(ctx, info, gpu);
                    lemma_insert_get(ctx.unknown_additions, p, op, q);
                    lemma_insert_get(ctx.unknown_additions, p, op, p);
                    match ctx.unknown_additions.get(p) {
                        Some(o) => {
                            lemma_push_contains(o.gpu_uids, gpu.guid, gpu.guid);
                            lemma_push_contains(o.gpu_uids, gpu.guid, g);
                        },
                        None => {
                            lemma_push_contains(dp.gpu_uid_list, gpu.guid, gpu.guid);
                        },
                    }
                    assert forall|q2: u32| #![trigger c.unknown_additions.get(q2)] c.unknown_additions.get(q2) is Some
                        implies c.unknown_additions.get(q2).unwrap().operation_type == NmxcPartitionOperationType::Update(q2) by {
                        lemma_insert_get(ctx.unknown_additions, p, op, q2);
                    }
                },
                None => {},
            },
            None => {},
        },
        Some(np) => {},
    }
}

proof fn lemma_release_gpus_additions(ctx: PpcView, info: MachineNvLinkInfoView, gpus: Seq<NvLinkGpu>, q: u32, g: u64)
    requires
        ctx.wf(),
        additions_update_own(ctx),
    ensures
        additions_update_own(release_gpus(ctx, info, gpus)),
        addition_queued(ctx, q, g) ==> addition_queued(release_gpus(ctx, info, gpus), q, g),
    decreases gpus.len(),
{
    if gpus.len() > 0 {
        lemma_release_gpus_additions(ctx, info, gpus.drop_last(), q, g);
        lemma_release_gpus_tables(ctx, info, gpus.drop_last());
        lemma_release_gpu_additions(release_gpus(ctx, info, gpus.drop_last()), info, gpus.last(), q, g);
    }
}

proof fn lemma_release_gpus_adds(ctx: PpcView, info: MachineNvLinkInfoView, gpus: Seq<NvLinkGpu>, j: int)
    requires
        ctx.wf(),
        additions_update_own(ctx),
        0 <= j < gpus.len(),
        goes_to_default(ctx, gpus[j]),
    ensures
        addition_queued(
            release_gpus(ctx, info, gpus),
            default_partition(ctx).unwrap().partition_id.unwrap().partition_id,
            gpus[j].guid,
        ),
    decreases gpus.len(),
{
    let q = default_partition(ctx).unwrap().partition_id.unwrap().partition_id;
    let rest = gpus.drop_last();
    lemma_release_gpus_tables(ctx, info, rest);
    lemma_release_gpus_additions(ctx, info, rest, q, gpus[j].guid);
    let c = release_gpus(ctx, info, rest);
    if j == gpus.len() - 1 {
        assert(goes_to_default(c, gpus.last()));
        lemma_release_gpu_additions(c, info, gpus.last(), q, gpus[j].guid);
    } else {
        assert(rest[j] == gpus[j]);
        lemma_release_gpus_adds(ctx, info, rest, j);
        lemma_release_gpu_additions(c, info, gpus.last(), q, gpus[j].guid);
    }
}

proof fn lemma_fold_gpus_keeps_additions(ctx: PpcView, inst: InstanceView, info: MachineNvLinkInfoView, gpus: Seq<NvLinkGpu>)
    ensures
        fold_gpus(ctx, inst, info, gpus).0.unknown_additions == ctx.unknown_additions,
    decreases gpus.len(),
{
    if gpus.len() > 0 {
        lemma_fold_gpus_keeps_additions(ctx, inst, info, gpus.drop_last());
    }
}

proof fn lemma_fold_machines_additions(ctx: PpcView, mhs: Seq<ManagedHostView>, now: i64, q: u32, g: u64)
    requires
        ctx.wf(),
        additions_update_own(ctx),
    ensures
        additions_update_own(fold_machines(ctx, mhs, now).0),
        addition_queued(ctx, q, g) ==> addition_queued(fold_machines(ctx, mhs, now).0, q, g),
    decreases mhs.len(),
{
    if mhs.len() > 0 {
        let rest = mhs.drop_last();
        lemma_fold_machines_additions(ctx, rest, now, q, g);
        lemma_fold_machines_observations(ctx, rest, now);
        let (c, st) = fold_machines(ctx, rest, now);
        let mh = mhs.last();
        match mh.instance {
            None => if on_admin_network(mh.dpu_snapshots) {
                match mh.nvlink_info {
                    Some(info) => lemma_release_gpus_additions(c, info, info.gpus, q, g),
                    None => {},
                }
            },
            Some(inst) => match c.machine_nvlink_info.get(inst.machine_id) {
                Some(Some(info)) => lemma_fold_gpus_keeps_additions(c, inst, info, info.gpus),
                _ => {},
            },
        }
    }
}

/// Law: releasing a host without instance on the admin network queues each
/// of its GPUs that is in no partition for the default partition: an
/// addition queued for the default partition sets its members with the GPU
/// among them. It holds from any state whose queued additions each set the
/// members of the partition they are queued for (as a fresh state does).
/// Left out: NMX-C reports no default partition, or one without an id.
pub proof fn lemma_released_idle_gpu_goes_to_default(ctx: PpcView, mh: ManagedHostView, j: int)
    requires
        ctx.wf(),
        additions_update_own(ctx),
        mh.instance is None,
        on_admin_network(mh.dpu_snapshots),
        mh.nvlink_info matches Some(info) && 0 <= j < info.gpus.len() && goes_to_default(ctx, info.gpus[j]),
    ensures
        addition_queued(
            release_host(ctx, mh),
            default_partition(ctx).unwrap().partition_id.unwrap().partition_id,
            mh.nvlink_info.unwrap().gpus[j].guid,
        ),
{
    let info = mh.nvlink_info.unwrap();
    lemma_release_gpus_adds(ctx, info, info.gpus, j);
}

/// Law: over a whole pass, each GPU in no partition of a host without
/// instance on the admin network ends up in an operation queued under the
/// nil logical partition that sets the default partition's members with
/// the GPU among them, whatever the pass does with the other GPUs. It holds
/// from any state whose queued additions each set the members of the
/// partition they are queued for (as a fresh state does). Left out: NMX-C
/// reports no default partition, or one without an id.
pub proof fn lemma_pass_returns_idle_gpu_to_default(ctx: PpcView, mhs: Seq<ManagedHostView>, now: i64, h: int, j: int)
    requires
        ctx.wf(),
        additions_update_own(ctx),
        0 <= h < mhs.len(),
        mhs[h].instance is None,
        on_admin_network(mhs[h].dpu_snapshots),
        mhs[h].nvlink_info matches Some(info) && 0 <= j < info.gpus.len() && goes_to_default(ctx, info.gpus[j]),
    ensures
        check_partitions(ctx, mhs, now).0.ops.get(0) matches Some(list) && exists|k: int|
            0 <= k < list.len() && (#[trigger] list[k]).operation_type == NmxcPartitionOperationType::Update(
                default_partition(ctx).unwrap().partition_id.unwrap().partition_id,
            ) && list[k].gpu_uids.contains(mhs[h].nvlink_info.unwrap().gpus[j].guid),
{
    let q = default_partition(ctx).unwrap().partition_id.unwrap().partition_id;
    let g = mhs[h].nvlink_info.unwrap().gpus[j].guid;
    let rest = mhs.take(h);
    let upto = mhs.take(h + 1);
    lemma_fold_machines_additions(ctx, rest, now, q, g);
    lemma_fold_machines_observations(ctx, rest, now);
    let (c, st) = fold_machines(ctx, rest, now);
    assert(upto.drop_last() =~= rest);
    assert(upto.last() == mhs[h]);
    let info = mhs[h].nvlink_info.unwrap();
    assert(goes_to_default(c, info.gpus[j]));
    lemma_release_gpus_adds(c, info, info.gpus, j);
    lemma_release_gpus_additions(c, info, info.gpus, q, g);
    lemma_release_gpus_tables(c, info, info.gpus);
    let c2 = fold_machines(ctx, upto, now).0;
    assert(addition_queued(c2, q, g));
    lemma_fold_machines_observations(ctx, upto, now);
    lemma_fold_machines_split(ctx, mhs, h + 1, now, q, g);
    let fin = fold_machines(ctx, mhs, now).0;
    assert(addition_queued(fin, q, g));
    lemma_fold_machines_observations(ctx, mhs, now);
    let o = fin.unknown_additions.get(q).unwrap();
    let a = fin.unknown_additions.keys.index_of(q);
    assert(fin.unknown_additions.vals[a] == o);
    let extra = unknown_operations(fin);
    let fl = flatten(fin.unknown_removals.vals);
    assert(extra[fl.len() + a] == o);
    let base = match fin.ops.get(0) {
        Some(x) => x,
        None => Seq::empty(),
    };
    let idx = base.len() + fl.len() + a;
    assert((base + extra)[idx] == o);
    assert(extra.len() > 0);
    lemma_insert_get(fin.ops, 0, base + extra, 0);
    let list = merge_unknown(fin).ops.get(0).unwrap();
    assert(list == base + extra);
    assert(list[idx].operation_type == NmxcPartitionOperationType::Update(q) && list[idx].gpu_uids.contains(g));
}

/// The pass over all hosts keeps a queued addition that the pass over the
/// first `n` hosts made.
proof fn lemma_fold_machines_split(ctx: PpcView, mhs: Seq<ManagedHostView>, n: int, now: i64, q: u32, g: u64)
    requires
        ctx.wf(),
        additions_update_own(ctx),
        0 <= n <= mhs.len(),
        addition_queued(fold_machines(ctx, mhs.take(n), now).0, q, g),
    ensures
        addition_queued(fold_machines(ctx, mhs, now).0, q, g),
    decreases mhs.len() - n,
{
    if n < mhs.len() {
        let t = mhs.take(n + 1);
        assert(t.drop_last() =~= mhs.take(n));
        lemma_fold_machines_additions(ctx, mhs.take(n), now, q, g);
        lemma_fold_machines_observations(ctx, mhs.take(n), now);
        let (c, st) = fold_machines(ctx, mhs.take(n), now);
        let mh = t.last();
        match mh.instance {
            None => if on_admin_network(mh.dpu_snapshots) {
                match mh.nvlink_info {
                    Some(info) => lemma_release_gpus_additions(c, info, info.gpus, q, g),
                    None => {},
                }
            },
            Some(inst) => match c.machine_nvlink_info.get(inst.machine_id) {
                Some(Some(info)) => lemma_fold_gpus_keeps_additions(c, inst, info, info.gpus),
                _ => {},
            },
        }
        lemma_fold_machines_split(ctx, mhs, n + 1, now, q, g);
    } else {
        assert(mhs.take(n) =~= mhs);
    }
}

/// Operation `op` rewrites NMX-C partition `pid` with the members of
/// `from` other than `g`: it deletes the partition when none is left, and
/// sets its members otherwise.
pub open spec fn rewrites_without(op: OpView, pid: u32, from: Seq<u64>, g: u64) -> bool {
    &&& forall|u: u64| #[trigger] op.gpu_uids.contains(u) <==> (u != g && from.contains(u))
    &&& op.operation_type == (if op.gpu_uids.len() == 0 {
        NmxcPartitionOperationType::Remove(pid)
    } else {
        NmxcPartitionOperationType::Update(pid)
    })
}

/// `after` differs from `before` by taking GPU `g` out of NMX-C partition
/// `pid` under logical partition `l`: the first operation queued under `l`
/// that has `g` among its members is rewritten with its other members; when
/// none has, an operation rewriting `pid` with its other NMX-C members is
/// queued last. Nothing else changes.
pub open spec fn removal_queued(before: PpcView, after: PpcView, l: u128, pid: u32, g: u64) -> bool {
    let x = match before.ops.get(l) {
        Some(x) => x,
        None => Seq::empty(),
    };
    &&& forall|l2: u128| l2 != l ==> #[trigger] after.ops.get(l2) == before.ops.get(l2)
    &&& same_tables(before, after)
    &&& after.unknown_removals == before.unknown_removals
    &&& after.unknown_additions == before.unknown_additions
    &&& after.ops.get(l) matches Some(list) && match find_first(x, crate::operation::covers_gpu(g)) {
        Some(i) => list.len() == x.len() && (forall|j: int| 0 <= j < x.len() && j != i ==> #[trigger] list[j] == x[j])
            && rewrites_without(list[i], pid, x[i].gpu_uids, g),
        None => list.len() == x.len() + 1 && (forall|j: int| 0 <= j < x.len() ==> #[trigger] list[j] == x[j])
            && rewrites_without(list[x.len() as int], pid, before.nmx_c_partitions.get(pid).unwrap().gpu_uid_list, g),
    }
}

proof fn lemma_after_removal_exact(ctx: PpcView, gc: GpuCtxView, l: u128)
    requires
        ctx.wf(),
        gc.logical_partition_id == Some(l),
        ctx.keep_after_removal(Some(l), gc.partition_nmx_c_id.partition_id, gc.gpu_guid) is Some,
    ensures
        removal_queued(
            ctx,
            ctx.after_gpu_removal(gc, ctx.keep_after_removal(Some(l), gc.partition_nmx_c_id.partition_id, gc.gpu_guid).unwrap()),
            l,
            gc.partition_nmx_c_id.partition_id,
            gc.gpu_guid,
        ),
{
    let g = gc.gpu_guid;
    let pid = gc.partition_nmx_c_id.partition_id;
    let k = ctx.keep_after_removal(Some(l), pid, g).unwrap();
    let op = crate::context::removal_op(gc, k);
    let list = ctx.ops.get(l);
    let x = match list {
        Some(x) => x,
        None => Seq::<OpView>::empty(),
    };
    let merged = crate::context::queue(list, upsert_covering(list.unwrap(), g, op, true), op);
    let after = ctx.after_gpu_removal(gc, k);
    assert forall|l2: u128| l2 != l implies #[trigger] after.ops.get(l2) == ctx.ops.get(l2) by {
        lemma_insert_get(ctx.ops, l, merged, l2);
    }
    lemma_insert_get(ctx.ops, l, merged, l);
    lemma_find_first(x, crate::operation::covers_gpu(g));
    match find_first(x, crate::operation::covers_gpu(g)) {
        Some(i) => {
            crate::seqs::lemma_without(x[i].gpu_uids, g);
            assert(list == Some(x));
            assert(k == crate::seqs::without(x[i].gpu_uids, g));
        },
        None => {
            crate::seqs::lemma_without(ctx.nmx_c_partitions.get(pid).unwrap().gpu_uid_list, g);
            if list is Some {
                assert(list == Some(x));
                assert(merged == x.push(op));
            } else {
                assert(x.len() == 0);
                assert(merged == seq![op]);
            }
        },
    }
}

/// Law: releasing a GPU of a host without instance that NMX-C places in a
/// partition the database stores under logical partition `l` takes exactly
/// that GPU out of that partition (see `removal_queued`), keeping its other
/// members, and changes nothing else.
pub proof fn lemma_release_gpu_exact(ctx: PpcView, info: MachineNvLinkInfoView, gpu: NvLinkGpu, l: u128)
    requires
        ctx.wf(),
        in_tenant_partition(ctx, gpu, l),
    ensures
        removal_queued(ctx, release_gpu(ctx, info, gpu), l, nmx_id(ctx.gpu_map.get(gpu.guid).unwrap()), gpu.guid),
{
    let np = ctx.gpu_map.get(gpu.guid).unwrap();
    let pid = nmx_id(np);
    let p = ctx.db_partitions.get(pid).unwrap();
    let gc = GpuCtxView {
        gpu_guid: gpu.guid,
        domain_uuid: info.domain_uuid,
        logical_partition_id: p.logical_partition_id,
        partition_id: Some(p.id),
        partition_name: p.name,
        partition_nmx_c_id: PartitionId { partition_id: pid },
    };
    lemma_after_removal_exact(ctx, gc, l);
}

/// Law: the step of an instance GPU that NMX-C places in a partition the
/// database stores under the usable logical partition `l`, which the
/// instance does not ask for in `l`, takes exactly that GPU out of that
/// partition (see `removal_queued`), keeping its other members, and changes
/// nothing else. Left out: a partition whose members cannot be found.
pub proof fn lemma_unwanted_gpu_step_exact(ctx: PpcView, inst: InstanceView, info: MachineNvLinkInfoView, gpu: NvLinkGpu, l: u128)
    requires
        ctx.wf(),
        unwanted_in(ctx, inst, gpu, l),
    ensures
        removal_queued(ctx, gpu_step(ctx, inst, info, gpu).0, l, nmx_id(ctx.gpu_map.get(gpu.guid).unwrap()), gpu.guid),
{
    let dec = decide_gpu(ctx, inst, info, gpu);
    assert(dec.action == GpuAction::RemoveFromPartition);
    assert(!dec.skip);
    assert(dec.g.gpu_guid == gpu.guid);
    lemma_after_removal_exact(ctx, dec.g, l);
}

/// Like `rewrites_without`, for a partition the database does not know.
pub open spec fn rewrites_unknown_without(op: OpView, pid: u32, from: Seq<u64>, g: u64) -> bool {
    &&& forall|u: u64| #[trigger] op.gpu_uids.contains(u) <==> (u != g && from.contains(u))
    &&& op.operation_type == (if op.gpu_uids.len() == 0 {
        NmxcPartitionOperationType::RemoveUnknownPartition(pid)
    } else {
        NmxcPartitionOperationType::Update(pid)
    })
}

/// `after` differs from `before` by taking GPU `g` out of NMX-C partition
/// `pid`, which the database does not know: the first removal queued for
/// `pid` that has `g` among its members is rewritten with its other
/// members; when none has, a removal rewriting `pid` with its other NMX-C
/// members is queued last. Nothing else changes.
pub open spec fn unknown_removal_queued(before: PpcView, after: PpcView, pid: u32, g: u64) -> bool {
    let x = match before.unknown_removals.get(pid) {
        Some(x) => x,
        None => Seq::empty(),
    };
    &&& forall|p2: u32| p2 != pid ==> #[trigger] after.unknown_removals.get(p2) == before.unknown_removals.get(p2)
    &&& same_tables(before, after)
    &&& after.ops == before.ops
    &&& after.unknown_additions == before.unknown_additions
    &&& after.unknown_removals.get(pid) matches Some(list) && match find_first(x, crate::operation::covers_gpu(g)) {
        Some(i) => list.len() == x.len() && (forall|j: int| 0 <= j < x.len() && j != i ==> #[trigger] list[j] == x[j])
            && rewrites_unknown_without(list[i], pid, x[i].gpu_uids, g),
        None => list.len() == x.len() + 1 && (forall|j: int| 0 <= j < x.len() ==> #[trigger] list[j] == x[j])
            && rewrites_unknown_without(list[x.len() as int], pid, before.nmx_c_partitions.get(pid).unwrap().gpu_uid_list, g),
    }
}

/// Law: the step of an instance GPU that NMX-C places in a partition the
/// database does not know takes exactly that GPU out of that partition (see
/// `unknown_removal_queued`), keeping its other members, unless it is the
/// default partition and the instance asks nothing of the GPU. Left out: a
/// partition whose members cannot be found.
pub proof fn lemma_unknown_partition_gpu_step_exact(ctx: PpcView, inst: InstanceView, info: MachineNvLinkInfoView, gpu: NvLinkGpu)
    requires
        ctx.wf(),
        ctx.gpu_map.get(gpu.guid) matches Some(np) && ctx.db_partitions.get(nmx_id(np)) is None
            && ctx.nmx_c_partitions.get(nmx_id(np)) is Some,
        !(is_default_partition(ctx.gpu_map.get(gpu.guid).unwrap()) && gpu_config_for(
            inst.gpu_configs,
            (gpu.device_id - 1) as u32,
        ) is None),
    ensures
        unknown_removal_queued(ctx, gpu_step(ctx, inst, info, gpu).0, nmx_id(ctx.gpu_map.get(gpu.guid).unwrap()), gpu.guid),
{
    let g = gpu.guid;
    let pid = nmx_id(ctx.gpu_map.get(g).unwrap());
    let dec = decide_gpu(ctx, inst, info, gpu);
    assert(dec.action == GpuAction::RemoveFromUnknownPartition);
    assert(!dec.skip);
    assert(dec.g.partition_nmx_c_id.partition_id == pid);
    assert(dec.g.logical_partition_id is None);
    let k = ctx.keep_in_unknown_after_removal(pid, g).unwrap();
    let op = crate::context::unknown_removal_op(pid, k);
    let list = ctx.unknown_removals.get(pid);
    let x = match list {
        Some(x) => x,
        None => Seq::<OpView>::empty(),
    };
    let merged = crate::context::queue(list, upsert_covering(list.unwrap(), g, op, false), op);
    let after = ctx.after_unknown_removal(pid, g, k);
    assert(gpu_step(ctx, inst, info, gpu).0 == after);
    assert forall|p2: u32| p2 != pid implies #[trigger] after.unknown_removals.get(p2) == ctx.unknown_removals.get(p2) by {
        lemma_insert_get(ctx.unknown_removals, pid, merged, p2);
    }
    lemma_insert_get(ctx.unknown_removals, pid, merged, pid);
    lemma_find_first(x, crate::operation::covers_gpu(g));
    match find_first(x, crate::operation::covers_gpu(g)) {
        Some(i) => {
            crate::seqs::lemma_without(x[i].gpu_uids, g);
            assert(list == Some(x));
            assert(k == crate::seqs::without(x[i].gpu_uids, g));
        },
        None => {
            crate::seqs::lemma_without(ctx.nmx_c_partitions.get(pid).unwrap().gpu_uid_list, g);
            if list is Some {
                assert(list == Some(x));
                assert(merged == x.push(op));
            } else {
                assert(x.len() == 0);
                assert(merged == seq![op]);
            }
        },
    }
}

/// The counts a partition pass keeps.
#[derive(Clone, Copy, Debug)]
pub struct NvlPartitionMonitorMetrics {
    pub num_machines_scanned: usize,
    pub num_instances_scanned: usize,
    pub num_gpus_scanned: usize,
    /// How many machines got a GPU observation.
    pub num_machine_nvl_status_updates: usize,
    pub num_logical_partitions: usize,
    pub num_physical_partitions: usize,
    pub num_completed_operations: usize,
}

impl NvlPartitionMonitorMetrics {
    /// All counts zero.
    pub fn new() -> (m: NvlPartitionMonitorMetrics)
        ensures
            m.num_machines_scanned == 0,
            m.num_instances_scanned == 0,
            m.num_gpus_scanned == 0,
            m.num_machine_nvl_status_updates == 0,
            m.num_logical_partitions == 0,
            m.num_physical_partitions == 0,
            m.num_completed_operations == 0,
    {
        NvlPartitionMonitorMetrics {
            num_machines_scanned: 0,
            num_instances_scanned: 0,
            num_gpus_scanned: 0,
            num_machine_nvl_status_updates: 0,
            num_logical_partitions: 0,
            num_physical_partitions: 0,
            num_completed_operations: 0,
        }
    }
}

/// The partition monitor: its settings and the period its metrics are held for.
pub struct NvlPartitionMonitor {
    pub config: NvLinkConfig,
    /// How long published metrics stay valid: the run interval plus one minute.
    pub metrics_hold_period: Duration,
}

/// The metrics hold period for run interval `interval`: one minute longer, saturating.
pub open spec fn hold_period(interval: nat) -> nat {
    if interval + 60_000_000_000 <= crate::time::max_nanos() {
        interval + 60_000_000_000
    } else {
        crate::time::max_nanos()
    }
}

impl NvlPartitionMonitor {
    pub fn new(config: NvLinkConfig) -> (m: NvlPartitionMonitor)
        ensures
            m.config == config,
            m.metrics_hold_period@ == hold_period(config.monitor_run_interval@),
    {
        let hold = config.monitor_run_interval.saturating_add(Duration::from_secs(60));
        NvlPartitionMonitor { config, metrics_hold_period: hold }
    }

    /// Whether the monitor runs at all: only when NvLink partitioning is enabled.
    pub fn should_start(&self) -> (b: bool)
        ensures
            b == self.config.enabled,
    {
        self.config.enabled
    }

    /// Decide what to do with one GPU of an instance (see `decide_gpu`).
    fn decide(
        ctx: &PartitionProcessingContext,
        inst: &Instance,
        info: &MachineNvLinkInfo,
        gpu: NvLinkGpu,
    ) -> (r: (bool, GpuAction, GpuProcessingContext, MachineNvLinkGpuStatusObservation))
        requires
            ctx@.wf(),
            gpu.device_id >= 1,
        ensures
            ({
                let d = decide_gpu(ctx@, inst@, info@, gpu);
                r.0 == d.skip && r.1 == d.action && r.2@ == d.g && r.3@ == d.obs
            }),
    {
        let device_instance = gpu.device_id - 1;
        let cfg = find_gpu_config(&inst.gpu_configs, device_instance);
        let mut obs = MachineNvLinkGpuStatusObservation {
            device_instance,
            domain_id: info.domain_uuid,
            gpu_id: u64_text(gpu.guid),
            guid: gpu.guid,
            logical_partition_id: None,
            partition_id: None,
        };
        let mut g = GpuProcessingContext::new(gpu.guid, info.domain_uuid);
        let pid_opt: Option<(u32, bool)> = match ctx.gpu_to_partition_map.get(&gpu.guid) {
            Some(np) => {
                let pid = match np.partition_id {
                    Some(id) => id.partition_id,
                    None => 0,
                };
                Some((pid, is_nmx_c_default_partition(np)))
            },
            None => None,
        };
        match pid_opt {
            Some((pid, is_default)) => match ctx.get_db_partition_info(pid) {
                Some((db_partition_id, db_lp, db_name, db_nmx_c_id)) => {
                    let skip = cfg.is_some() && db_lp.is_none();
                    let action = match cfg {
                        Some(c) => if !same_lp(c.logical_partition_id, db_lp) {
                            GpuAction::RemoveFromPartition
                        } else {
                            GpuAction::NoOp
                        },
                        None => GpuAction::RemoveFromPartition,
                    };
                    g.logical_partition_id = db_lp;
                    g.partition_id = db_partition_id;
                    g.partition_name = db_name;
                    g.partition_nmx_c_id = db_nmx_c_id;
                    obs.logical_partition_id = db_lp;
                    obs.partition_id = db_partition_id;
                    (skip, action, g, obs)
                },
                None => {
                    if is_default && cfg.is_none() {
                        (false, GpuAction::NoOp, g, obs)
                    } else {
                        g.partition_nmx_c_id = PartitionId { partition_id: pid };
                        (false, GpuAction::RemoveFromUnknownPartition, g, obs)
                    }
                },
            },
            None => match cfg {
                Some(c) => if c.logical_partition_id.is_some() {
                    g.logical_partition_id = c.logical_partition_id;
                    (false, GpuAction::AddToPartition, g, obs)
                } else {
                    (false, GpuAction::NoOp, g, obs)
                },
                None => (false, GpuAction::NoOp, g, obs),
            },
        }
    }

    /// Position of the first database partition of logical partition `lp` in domain `d`.
    fn find_partition_for(ctx: &PartitionProcessingContext, lp: Option<u128>, d: u128) -> (r: Option<usize>)
        requires
            ctx@.wf(),
        ensures
            match r {
                Some(i) => i < ctx@.db_partitions.len() && partition_for(ctx@, lp, d) == Some(i as int),
                None => partition_for(ctx@, lp, d) is None,
            },
    {
        let ghost vals = ctx@.db_partitions.vals;
        let n = ctx.db_nvl_partitions.len();
        let mut i: usize = 0;
        while i < n
            invariant
                ctx@.wf(),
                n == ctx@.db_partitions.len(),
                vals == ctx@.db_partitions.vals,
                i <= n,
                forall|j: int| 0 <= j < i ==> !(#[trigger] in_logical_partition_and_domain(lp, d)(vals[j])),
            decreases n - i,
        {
            let p = ctx.db_nvl_partitions.value_at(i);
            if same_lp(p.logical_partition_id, lp) && p.domain_uuid == d {
                proof {
                    lemma_find_first_is(vals, in_logical_partition_and_domain(lp, d), i as int);
                }
                return Some(i);
            }
            i = i + 1;
        }
        proof {
            lemma_find_first_none(vals, in_logical_partition_and_domain(lp, d));
        }
        None
    }

    /// Process one GPU of an instance: queue what it needs and return its observation.
    fn process_gpu(
        ctx: &mut PartitionProcessingContext,
        inst: &Instance,
        info: &MachineNvLinkInfo,
        gpu: NvLinkGpu,
    ) -> (r: Option<MachineNvLinkGpuStatusObservation>)
        requires
            old(ctx)@.wf(),
            gpu.device_id >= 1,
        ensures
            final(ctx)@.wf(),
            final(ctx)@ == gpu_step(old(ctx)@, inst@, info@, gpu).0,
            final(ctx)@.machine_nvlink_info == old(ctx)@.machine_nvlink_info,
            match r {
                Some(o) => gpu_step(old(ctx)@, inst@, info@, gpu).1 == Some(o@),
                None => gpu_step(old(ctx)@, inst@, info@, gpu).1 is None,
            },
    {
        let (skip, action, g, obs) = Self::decide(ctx, inst, info, gpu);
        if skip {
            return None;
        }
        if let Some(l) = g.logical_partition_id {
            if !ctx.validate_logical_partition(&l) {
                return Some(obs);
            }
        }
        match action {
            GpuAction::AddToPartition => {
                match Self::find_partition_for(ctx, g.logical_partition_id, info.domain_uuid) {
                    Some(i) => {
                        let p = ctx.db_nvl_partitions.value_at(i).duplicate();
                        proof {
                            assert(parse_u32_text(ctx@.db_partitions.vals[i as int].nmx_m_id) == Some(ctx@.db_partitions.keys[i as int]));
                        }
                        let _ = ctx.handle_gpu_addition_existing_partition(&g, &p);
                    },
                    None => {
                        let _ = ctx.handle_gpu_addition_new_partition(&g);
                    },
                }
            },
            GpuAction::RemoveFromPartition => {
                match ctx.get_gpus_to_keep_after_removal(
                    g.logical_partition_id,
                    &g.partition_nmx_c_id,
                    g.gpu_guid,
                    &inst.machine_id,
                    gpu.device_id - 1,
                ) {
                    Some(keep) => {
                        let _ = ctx.handle_gpu_removal(&g, keep);
                    },
                    None => {},
                }
            },
            GpuAction::RemoveFromUnknownPartition => {
                match ctx.get_gpus_to_keep_in_unknown_partition_after_removal(
                    &g.partition_nmx_c_id,
                    g.gpu_guid,
                    &inst.machine_id,
                    gpu.device_id - 1,
                ) {
                    Some(keep) => {
                        let _ = ctx.handle_gpu_removal_from_unknown_partition(
                            &g.partition_nmx_c_id,
                            g.gpu_guid,
                            keep,
                        );
                    },
                    None => {},
                }
            },
            GpuAction::NoOp => {},
        }
        Some(obs)
    }

    /// Position of the first NMX-C partition that is the default partition.
    fn find_default_partition(ctx: &PartitionProcessingContext) -> (r: Option<usize>)
        requires
            ctx@.wf(),
        ensures
            match r {
                Some(i) => i < ctx@.nmx_c_partitions.len() && default_partition(ctx@) == Some(
                    ctx@.nmx_c_partitions.vals[i as int],
                ),
                None => default_partition(ctx@) is None,
            },
    {
        let ghost vals = ctx@.nmx_c_partitions.vals;
        let ghost p = |x: PartitionInfoView| is_default_partition(x);
        let n = ctx.nmx_c_partitions.len();
        let mut i: usize = 0;
        while i < n
            invariant
                ctx@.wf(),
                n == ctx@.nmx_c_partitions.len(),
                vals == ctx@.nmx_c_partitions.vals,
                p == (|x: PartitionInfoView| is_default_partition(x)),
                i <= n,
                forall|j: int| 0 <= j < i ==> !(#[trigger] p(vals[j])),
            decreases n - i,
        {
            if is_nmx_c_default_partition(ctx.nmx_c_partitions.value_at(i)) {
                proof {
                    lemma_find_first_is(vals, p, i as int);
                }
                return Some(i);
            }
            i = i + 1;
        }
        proof {
            lemma_find_first_none(vals, p);
        }
        None
    }

    /// Release one GPU of a host without instance (see `release_gpu`).
    fn release_one_gpu(ctx: &mut PartitionProcessingContext, host_id: &u128, info: &MachineNvLinkInfo, gpu: NvLinkGpu)
        requires
            old(ctx)@.wf(),
        ensures
            final(ctx)@.wf(),
            final(ctx)@ == release_gpu(old(ctx)@, info@, gpu),
            final(ctx)@.machine_nvlink_info == old(ctx)@.machine_nvlink_info,
    {
        let partition_id: Option<u32> = match ctx.gpu_to_partition_map.get(&gpu.guid) {
            Some(np) => Some(
                match np.partition_id {
                    Some(id) => id.partition_id,
                    None => 0,
                },
            ),
            None => None,
        };
        match partition_id {
            None => {
                if let Some(i) = Self::find_default_partition(ctx) {
                    let dp = ctx.nmx_c_partitions.value_at(i);
                    if let Some(pid) = dp.partition_id {
                        let members = copy_u64s(&dp.gpu_uid_list);
                        let _ = ctx.handle_gpu_addition_to_unknown_partition(&pid, gpu.guid, members);
                    }
                }
            },
            Some(pid) => {
                if let Some((db_partition_id, db_lp, db_name, db_nmx_c_id)) = ctx.get_db_partition_info(pid) {
                    let g = GpuProcessingContext {
                        gpu_guid: gpu.guid,
                        domain_uuid: info.domain_uuid,
                        logical_partition_id: db_lp,
                        partition_id: db_partition_id,
                        partition_name: db_name,
                        partition_nmx_c_id: db_nmx_c_id,
                    };
                    if let Some(keep) = ctx.get_gpus_to_keep_after_removal(
                        db_lp,
                        &g.partition_nmx_c_id,
                        gpu.guid,
                        host_id,
                        gpu.device_id,
                    ) {
                        let _ = ctx.handle_gpu_removal(&g, keep);
                    }
                }
            },
        }
    }

    /// A host that no longer runs an instance keeps no GPU in a tenant
    /// partition: when it is on the admin network, each of its GPUs is taken
    /// out of its tenant partition, and a GPU in no partition is queued for
    /// the default partition.
    pub fn check_machine_and_handle_gpu_removals(
        &self,
        mh: &ManagedHostSnapshot,
        partition_ctx: &mut PartitionProcessingContext,
    ) -> (r: Result<(), NvLinkManagerError>)
        requires
            old(partition_ctx)@.wf(),
        ensures
            r is Ok,
            final(partition_ctx)@.wf(),
            final(partition_ctx)@ == release_host(old(partition_ctx)@, mh@),
            final(partition_ctx)@.machine_nvlink_info == old(partition_ctx)@.machine_nvlink_info,
    {
        let mut use_admin_network = false;
        let mut k: usize = 0;
        while k < mh.dpu_snapshots.len()
            invariant
                k <= mh.dpu_snapshots@.len(),
                use_admin_network == exists|i: int| 0 <= i < k && (match #[trigger] mh.dpu_snapshots@[i].use_admin_network {
                    Some(b) => b,
                    None => true,
                }),
            decreases mh.dpu_snapshots@.len() - k,
        {
            let flag = match mh.dpu_snapshots[k].use_admin_network {
                Some(b) => b,
                None => true,
            };
            use_admin_network = use_admin_network || flag;
            k = k + 1;
        }
        if !use_admin_network {
            return Ok(());
        }
        let info = match &mh.host_snapshot.nvlink_info {
            Some(info) => info,
            None => {
                return Ok(());
            },
        };
        let ghost start = partition_ctx@;
        let mut i: usize = 0;
        while i < info.gpus.len()
            invariant
                i <= info.gpus@.len(),
                partition_ctx@.wf(),
                partition_ctx@ == release_gpus(start, info@, info.gpus@.take(i as int)),
                partition_ctx@.machine_nvlink_info == start.machine_nvlink_info,
            decreases info.gpus@.len() - i,
        {
            Self::release_one_gpu(partition_ctx, &mh.host_snapshot.id, info, info.gpus[i]);
            proof {
                let t = info.gpus@.take(i + 1);
                assert(t.drop_last() =~= info.gpus@.take(i as int));
            }
            i = i + 1;
        }
        assert(info.gpus@.take(i as int) =~= info.gpus@);
        Ok(())
    }
    /// Process one managed host (see `machine_step`).
    fn process_machine(
        &self,
        ctx: &mut PartitionProcessingContext,
        statuses: &mut KeyedVec<u128, MachineNvLinkStatusObservation>,
        mh: &ManagedHostSnapshot,
        now: i64,
    )
        requires
            old(ctx)@.wf(),
            old(statuses).wf(),
            match mh@.instance {
                Some(inst) => info_device_ids_valid(old(ctx)@.machine_nvlink_info.get(inst.machine_id)),
                None => true,
            },
        ensures
            final(ctx)@.wf(),
            final(statuses).wf(),
            (final(ctx)@, final(statuses).view()) == machine_step(old(ctx)@, old(statuses).view(), mh@, now),
            final(ctx)@.machine_nvlink_info == old(ctx)@.machine_nvlink_info,
    {
        match &mh.instance {
            None => {
                let _ = self.check_machine_and_handle_gpu_removals(mh, ctx);
            },
            Some(inst) => {
                let ghost got = ctx@.machine_nvlink_info.get(inst.machine_id);
                let info_copy: Option<MachineNvLinkInfo> = match ctx.machine_nvlink_info.get(&inst.machine_id) {
                    Some(Some(info)) => {
                        let c = info.duplicate();
                        assert(got == Some(Some(c@)));
                        Some(c)
                    },
                    Some(None) => {
                        assert(got == Some(None::<MachineNvLinkInfoView>));
                        None
                    },
                    None => None,
                };
                assert(info_copy matches Some(c) ==> got == Some(Some(c@)));
                assert(info_copy is None ==> !(got matches Some(Some(_))));
                assert(mh@.instance == Some(inst@));
                assert(info_device_ids_valid(got));
                match info_copy {
                    Some(info) => {
                        let ghost start = ctx@;
                        let mut obs: Vec<MachineNvLinkGpuStatusObservation> = Vec::new();
                        let mut i: usize = 0;
                        assert(obs.deep_view() =~= Seq::<GpuObservationView>::empty());
                        while i < info.gpus.len()
                            invariant
                                i <= info.gpus@.len(),
                                ctx@.wf(),
                                ctx@.machine_nvlink_info == start.machine_nvlink_info,
                                forall|j: int| 0 <= j < info.gpus@.len() ==> (#[trigger] info.gpus@[j]).device_id >= 1,
                                (ctx@, obs.deep_view()) == fold_gpus(start, inst@, info@, info.gpus@.take(i as int)),
                            decreases info.gpus@.len() - i,
                        {
                            let ghost before = obs.deep_view();
                            let gpu = info.gpus[i];
                            match Self::process_gpu(ctx, inst, &info, gpu) {
                                Some(o) => {
                                    obs.push(o);
                                    assert(obs.deep_view() =~= before.push(o@));
                                },
                                None => {},
                            }
                            proof {
                                let t = info.gpus@.take(i + 1);
                                assert(t.drop_last() =~= info.gpus@.take(i as int));
                            }
                            i = i + 1;
                        }
                        assert(info.gpus@.take(i as int) =~= info.gpus@);
                        statuses.insert(inst.machine_id, MachineNvLinkStatusObservation { observed_at: now, nvlink_gpus: obs });
                    },
                    None => {
                        let obs: Vec<MachineNvLinkGpuStatusObservation> = Vec::new();
                        assert(obs.deep_view() =~= Seq::<GpuObservationView>::empty());
                        statuses.insert(inst.machine_id, MachineNvLinkStatusObservation { observed_at: now, nvlink_gpus: obs });
                    },
                }
            },
        }
    }

    /// Append every queued operation on partitions the database does not know
    /// to the operations of the nil logical partition, so that they get executed.
    pub fn merge_unknown_partition_operations(ctx: &mut PartitionProcessingContext)
        requires
            old(ctx)@.wf(),
        ensures
            final(ctx)@.wf(),
            final(ctx)@ == merge_unknown(old(ctx)@),
    {
        let mut extra: Vec<NmxcPartitionOperation> = Vec::new();
        let n = ctx.unknown_partition_removal_operations.len();
        let mut i: usize = 0;
        assert(extra.deep_view() =~= flatten(ctx@.unknown_removals.vals.take(0)));
        while i < n
            invariant
                ctx@ == old(ctx)@,
                ctx@.wf(),
                n == ctx@.unknown_removals.len(),
                i <= n,
                extra.deep_view() == flatten(ctx@.unknown_removals.vals.take(i as int)),
            decreases n - i,
        {
            let list = ctx.unknown_partition_removal_operations.value_at(i);
            let ghost base = extra.deep_view();
            let mut j: usize = 0;
            while j < list.len()
                invariant
                    j <= list@.len(),
                    extra.deep_view() == base + list.deep_view().take(j as int),
                decreases list@.len() - j,
            {
                let ghost before = extra.deep_view();
                extra.push(list[j].duplicate());
                assert(extra.deep_view() =~= before.push(list.deep_view()[j as int]));
                assert(list.deep_view().take(j + 1) =~= list.deep_view().take(j as int).push(list.deep_view()[j as int]));
                j = j + 1;
            }
            proof {
                assert(list.deep_view().take(j as int) =~= list.deep_view());
                let t = ctx@.unknown_removals.vals.take(i + 1);
                assert(t.drop_last() =~= ctx@.unknown_removals.vals.take(i as int));
            }
            i = i + 1;
        }
        assert(ctx@.unknown_removals.vals.take(n as int) =~= ctx@.unknown_removals.vals);
        let ghost removals = extra.deep_view();
        let m = ctx.unknown_partition_addition_operations.len();
        let mut k: usize = 0;
        while k < m
            invariant
                ctx@ == old(ctx)@,
                ctx@.wf(),
                m == ctx@.unknown_additions.len(),
                k <= m,
                extra.deep_view() == removals + ctx@.unknown_additions.vals.take(k as int),
            decreases m - k,
        {
            let ghost before = extra.deep_view();
            extra.push(ctx.unknown_partition_addition_operations.value_at(k).duplicate());
            assert(extra.deep_view() =~= before.push(ctx@.unknown_additions.vals[k as int]));
            assert(ctx@.unknown_additions.vals.take(k + 1) =~= ctx@.unknown_additions.vals.take(k as int).push(
                ctx@.unknown_additions.vals[k as int],
            ));
            k = k + 1;
        }
        assert(ctx@.unknown_additions.vals.take(m as int) =~= ctx@.unknown_additions.vals);
        assert(extra.deep_view() == unknown_operations(old(ctx)@));
        if extra.len() == 0 {
            return;
        }
        let ghost extra_v = extra.deep_view();
        let nil: u128 = 0;
        match ctx.nmx_c_operations.position(&nil) {
            Some(pos) => {
                let mut list = ctx.nmx_c_operations.swap_value_at(pos, Vec::new());
                let ghost base = list.deep_view();
                let mut t: usize = 0;
                let mut extra = extra;
                let ghost extra0 = extra.deep_view();
                while t < extra.len()
                    invariant
                        t <= extra@.len(),
                        extra.deep_view() == extra0,
                        list.deep_view() == base + extra0.take(t as int),
                    decreases extra@.len() - t,
                {
                    let ghost before = list.deep_view();
                    list.push(extra[t].duplicate());
                    assert(list.deep_view() =~= before.push(extra0[t as int]));
                    assert(extra0.take(t + 1) =~= extra0.take(t as int).push(extra0[t as int]));
                    t = t + 1;
                }
                assert(extra0.take(t as int) =~= extra0);
                let _ = ctx.nmx_c_operations.swap_value_at(pos, list);
                proof {
                    assert(ctx.nmx_c_operations.view().vals =~= old(ctx).nmx_c_operations.view().vals.update(
                        pos as int,
                        base + extra_v,
                    ));
                }
            },
            None => {
                ctx.nmx_c_operations.insert(nil, extra);
                assert(Seq::<OpView>::empty() + extra_v =~= extra_v);
            },
        }
        assert(ctx@ =~= merge_unknown(old(ctx)@));
    }

    /// How many GPUs the pass looks at on host `mh`.
    fn host_gpu_count(ctx: &PartitionProcessingContext, mh: &ManagedHostSnapshot) -> (n: usize)
        requires
            ctx@.wf(),
        ensures
            n == host_gpus_scanned(ctx@, mh@),
    {
        match &mh.instance {
            Some(inst) => {
                assert(mh@.instance == Some(inst@));
                match ctx.machine_nvlink_info.get(&inst.machine_id) {
                    Some(Some(info)) => info.gpus.len(),
                    _ => 0,
                }
            },
            None => 0,
        }
    }

    /// The pass at time `now` (milliseconds since the epoch): process every
    /// managed host in order, then hand the operations on partitions the
    /// database does not know to the nil logical partition. Returns each
    /// instance machine's GPU observation, keyed by exactly the instance
    /// machines, and counts the machines, instances and GPUs it looked at
    /// and the observations it made.
    pub fn check_nv_link_partitions_at(
        &self,
        partition_ctx: &mut PartitionProcessingContext,
        mh_snapshots: &Vec<ManagedHostSnapshot>,
        metrics: &mut NvlPartitionMonitorMetrics,
        now: i64,
    ) -> (r: Result<KeyedVec<u128, MachineNvLinkStatusObservation>, NvLinkManagerError>)
        requires
            old(partition_ctx)@.wf(),
            device_ids_valid(old(partition_ctx)@, mh_snapshots.deep_view()),
            old(metrics).num_machines_scanned + mh_snapshots@.len() <= usize::MAX,
            old(metrics).num_instances_scanned + instances_in(mh_snapshots.deep_view()) <= usize::MAX,
            old(metrics).num_gpus_scanned + gpus_scanned(old(partition_ctx)@, mh_snapshots.deep_view()) <= usize::MAX,
        ensures
            final(partition_ctx)@.wf(),
            r matches Ok(statuses) && statuses.wf() && (final(partition_ctx)@, statuses.view())
                == check_partitions(old(partition_ctx)@, mh_snapshots.deep_view(), now)
                && (forall|k: u128| #[trigger] statuses.view().contains(k) <==> instance_machine(mh_snapshots.deep_view(), k))
                && final(metrics).num_machine_nvl_status_updates == statuses.view().len(),
            final(metrics).num_machines_scanned == old(metrics).num_machines_scanned + mh_snapshots@.len(),
            final(metrics).num_instances_scanned == old(metrics).num_instances_scanned + instances_in(mh_snapshots.deep_view()),
            final(metrics).num_gpus_scanned == old(metrics).num_gpus_scanned + gpus_scanned(
                old(partition_ctx)@,
                mh_snapshots.deep_view(),
            ),
            final(metrics).num_logical_partitions == old(metrics).num_logical_partitions,
            final(metrics).num_physical_partitions == old(metrics).num_physical_partitions,
            final(metrics).num_completed_operations == old(metrics).num_completed_operations,
    {
        let ghost start = partition_ctx@;
        let ghost mhs = mh_snapshots.deep_view();
        let ghost m0 = *metrics;
        let mut statuses: KeyedVec<u128, MachineNvLinkStatusObservation> = KeyedVec::new();
        let mut i: usize = 0;
        while i < mh_snapshots.len()
            invariant
                i <= mh_snapshots@.len(),
                mhs == mh_snapshots.deep_view(),
                mhs.len() == mh_snapshots@.len(),
                partition_ctx@.wf(),
                statuses.wf(),
                partition_ctx@.machine_nvlink_info == start.machine_nvlink_info,
                device_ids_valid(start, mhs),
                (partition_ctx@, statuses.view()) == fold_machines(start, mhs.take(i as int), now),
                metrics.num_machines_scanned == m0.num_machines_scanned + i,
                metrics.num_instances_scanned == m0.num_instances_scanned + instances_in(mhs.take(i as int)),
                metrics.num_gpus_scanned == m0.num_gpus_scanned + gpus_scanned(start, mhs.take(i as int)),
                m0.num_machines_scanned + mhs.len() <= usize::MAX,
                m0.num_instances_scanned + instances_in(mhs) <= usize::MAX,
                m0.num_gpus_scanned + gpus_scanned(start, mhs) <= usize::MAX,
                metrics.num_machine_nvl_status_updates == m0.num_machine_nvl_status_updates,
                metrics.num_logical_partitions == m0.num_logical_partitions,
                metrics.num_physical_partitions == m0.num_physical_partitions,
                metrics.num_completed_operations == m0.num_completed_operations,
            decreases mh_snapshots@.len() - i,
        {
            let mh = &mh_snapshots[i];
            proof {
                assert(mhs[i as int] == mh@);
                let t = mhs.take(i + 1);
                assert(t.drop_last() =~= mhs.take(i as int));
                lemma_counts_monotone(start, mhs, i + 1);
            }
            let n_gpus = Self::host_gpu_count(partition_ctx, mh);
            assert(host_gpus_scanned(partition_ctx@, mh@) == host_gpus_scanned(start, mh@));
            metrics.num_machines_scanned = metrics.num_machines_scanned + 1;
            if mh.instance.is_some() {
                metrics.num_instances_scanned = metrics.num_instances_scanned + 1;
            }
            metrics.num_gpus_scanned = metrics.num_gpus_scanned + n_gpus;
            self.process_machine(partition_ctx, &mut statuses, mh, now);
            i = i + 1;
        }
        assert(mhs.take(i as int) =~= mhs);
        proof {
            lemma_fold_machines_keys(start, mhs, now);
        }
        Self::merge_unknown_partition_operations(partition_ctx);
        metrics.num_machine_nvl_status_updates = statuses.len();
        Ok(statuses)
    }

    /// The pass, stamped with the current time (see `check_nv_link_partitions_at`).
    pub fn check_nv_link_partitions(
        &self,
        partition_ctx: &mut PartitionProcessingContext,
        mh_snapshots: &Vec<ManagedHostSnapshot>,
        metrics: &mut NvlPartitionMonitorMetrics,
    ) -> (r: Result<KeyedVec<u128, MachineNvLinkStatusObservation>, NvLinkManagerError>)
        requires
            old(partition_ctx)@.wf(),
            device_ids_valid(old(partition_ctx)@, mh_snapshots.deep_view()),
            old(metrics).num_machines_scanned + mh_snapshots@.len() <= usize::MAX,
            old(metrics).num_instances_scanned + instances_in(mh_snapshots.deep_view()) <= usize::MAX,
            old(metrics).num_gpus_scanned + gpus_scanned(old(partition_ctx)@, mh_snapshots.deep_view()) <= usize::MAX,
        ensures
            final(partition_ctx)@.wf(),
            r matches Ok(statuses) && statuses.wf() && (exists|now: i64|
                (final(partition_ctx)@, statuses.view()) == #[trigger] check_partitions(
                    old(partition_ctx)@,
                    mh_snapshots.deep_view(),
                    now,
                ))
                && (forall|k: u128| #[trigger] statuses.view().contains(k) <==> instance_machine(mh_snapshots.deep_view(), k))
                && final(metrics).num_machine_nvl_status_updates == statuses.view().len(),
            final(metrics).num_machines_scanned == old(metrics).num_machines_scanned + mh_snapshots@.len(),
            final(metrics).num_instances_scanned == old(metrics).num_instances_scanned + instances_in(mh_snapshots.deep_view()),
            final(metrics).num_gpus_scanned == old(metrics).num_gpus_scanned + gpus_scanned(
                old(partition_ctx)@,
                mh_snapshots.deep_view(),
            ),
            final(metrics).num_logical_partitions == old(metrics).num_logical_partitions,
            final(metrics).num_physical_partitions == old(metrics).num_physical_partitions,
            final(metrics).num_completed_operations == old(metrics).num_completed_operations,
    {
        let now = current_time_millis();
        self.check_nv_link_partitions_at(partition_ctx, mh_snapshots, metrics, now)
    }
}

} // verus!
