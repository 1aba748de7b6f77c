//! The state of one reconciliation pass over an NvLink domain: what NMX-C and
//! the database hold, and the NMX-C operations queued so far.

use vstd::prelude::*;
use crate::keyed::{KeyedVec, KeyedView, lemma_insert_get};
use crate::model::{
    LogicalPartition, MachineNvLinkInfo, MachineNvLinkInfoView, NvlPartition, NvlPartitionView,
    PartitionId, PartitionInfo, PartitionInfoView,
};
use crate::operation::{
    NmxcPartitionOperation, NmxcPartitionOperationType, NvLinkManagerError, OpView, covers_gpu,
    in_domain, join_first, updates_partition, upsert_covering, upsert_covering_list, join_same_domain, join_same_update,
};
use crate::seqs::{find_first, without};
use crate::seqs::copy_without;
use crate::text::{decimal_text, parse_u32, parse_u32_text, u64_text, uuid_string, uuid_text};

verus! {

/// What the engine knows about one GPU while deciding what to do with it.
#[derive(Debug)]
pub struct GpuProcessingContext {
    pub gpu_guid: u64,
    pub domain_uuid: u128,
    pub logical_partition_id: Option<u128>,
    pub partition_id: Option<u128>,
    pub partition_name: String,
    pub partition_nmx_c_id: PartitionId,
}

pub struct GpuCtxView {
    pub gpu_guid: u64,
    pub domain_uuid: u128,
    pub logical_partition_id: Option<u128>,
    pub partition_id: Option<u128>,
    pub partition_name: Seq<char>,
    pub partition_nmx_c_id: PartitionId,
}

impl View for GpuProcessingContext {
    type V = GpuCtxView;

    open spec fn view(&self) -> GpuCtxView {
        GpuCtxView {
            gpu_guid: self.gpu_guid,
            domain_uuid: self.domain_uuid,
            logical_partition_id: self.logical_partition_id,
            partition_id: self.partition_id,
            partition_name: self.partition_name@,
            partition_nmx_c_id: self.partition_nmx_c_id,
        }
    }
}

impl GpuProcessingContext {
    /// The starting context of a GPU: no partition known yet.
    pub fn new(gpu_guid: u64, domain_uuid: u128) -> (c: GpuProcessingContext)
        ensures
            c@ == (GpuCtxView {
                gpu_guid,
                domain_uuid,
                logical_partition_id: None,
                partition_id: None,
                partition_name: Seq::empty(),
                partition_nmx_c_id: PartitionId { partition_id: 0 },
            }),
    {
        GpuProcessingContext {
            gpu_guid,
            domain_uuid,
            logical_partition_id: None,
            partition_id: None,
            partition_name: String::new(),
            partition_nmx_c_id: PartitionId::default_id(),
        }
    }
}

impl Default for GpuProcessingContext {
    /// The context of no GPU in particular: every field at its default.
    fn default() -> (c: GpuProcessingContext)
        ensures
            c@ == (GpuCtxView {
                gpu_guid: 0,
                domain_uuid: 0,
                logical_partition_id: None,
                partition_id: None,
                partition_name: Seq::empty(),
                partition_nmx_c_id: PartitionId { partition_id: 0 },
            }),
    {
        GpuProcessingContext::new(0, 0)
    }
}

/// The model of a `PartitionProcessingContext`.
pub struct PpcView {
    /// NMX-C partitions by NMX-C partition id.
    pub nmx_c_partitions: KeyedView<u32, PartitionInfoView>,
    pub logical_partitions: KeyedView<u128, LogicalPartition>,
    /// Database partitions by NMX-C partition id.
    pub db_partitions: KeyedView<u32, NvlPartitionView>,
    pub machine_nvlink_info: KeyedView<u128, Option<MachineNvLinkInfoView>>,
    /// For each GPU in some NMX-C partition, that partition.
    pub gpu_map: KeyedView<u64, PartitionInfoView>,
    /// Queued operations by logical partition id.
    pub ops: KeyedView<u128, Seq<OpView>>,
    pub unknown_removals: KeyedView<u32, Seq<OpView>>,
    pub unknown_additions: KeyedView<u32, OpView>,
}

/// The operation that removes `g`'s GPU from its partition, keeping `keep`.
pub open spec fn removal_op(g: GpuCtxView, keep: Seq<u64>) -> OpView {
    OpView {
        domain_uuid: Some(g.domain_uuid),
        operation_type: if keep.len() == 0 {
            NmxcPartitionOperationType::Remove(g.partition_nmx_c_id.partition_id)
        } else {
            NmxcPartitionOperationType::Update(g.partition_nmx_c_id.partition_id)
        },
        gpu_uids: keep,
        name: g.partition_name,
        db_partition_id: g.partition_id,
    }
}

/// The operation that removes a GPU from an unknown NMX-C partition `pid`, keeping `keep`.
pub open spec fn unknown_removal_op(pid: u32, keep: Seq<u64>) -> OpView {
    OpView {
        domain_uuid: None,
        operation_type: if keep.len() == 0 {
            NmxcPartitionOperationType::RemoveUnknownPartition(pid)
        } else {
            NmxcPartitionOperationType::Update(pid)
        },
        gpu_uids: keep,
        name: Seq::empty(),
        db_partition_id: None,
    }
}

/// The operation that creates a new partition of `g`'s logical partition holding only its GPU.
pub open spec fn create_op(g: GpuCtxView, lp: u128) -> OpView {
    OpView {
        domain_uuid: Some(g.domain_uuid),
        operation_type: NmxcPartitionOperationType::Create,
        gpu_uids: seq![g.gpu_guid],
        name: uuid_text(lp) + decimal_text(g.gpu_guid as nat),
        db_partition_id: None,
    }
}

pub open spec fn queue(list: Option<Seq<OpView>>, merged: Seq<OpView>, op: OpView) -> Seq<OpView> {
    match list {
        Some(_) => merged,
        None => seq![op],
    }
}

impl PpcView {
    pub open spec fn wf(self) -> bool {
        &&& self.nmx_c_partitions.wf()
        &&& self.logical_partitions.wf()
        &&& self.db_partitions.wf()
        &&& self.machine_nvlink_info.wf()
        &&& self.gpu_map.wf()
        &&& self.ops.wf()
        &&& self.unknown_removals.wf()
        &&& self.unknown_additions.wf()
        &&& forall|i: int|
            0 <= i < self.db_partitions.len() ==> parse_u32_text(
                #[trigger] self.db_partitions.vals[i].nmx_m_id,
            ) == Some(self.db_partitions.keys[i])
    }

    /// Whether logical partition `lp` exists and is not marked as deleted.
    pub open spec fn logical_partition_usable(self, lp: u128) -> bool {
        match self.logical_partitions.get(lp) {
            Some(p) => !p.marked_as_deleted,
            None => false,
        }
    }

    /// The members that should stay in a partition of logical partition `lp`
    /// once GPU `g` leaves it: taken from a queued operation that covers `g`,
    /// else from NMX-C partition `pid`.
    pub open spec fn keep_after_removal(self, lp: Option<u128>, pid: u32, g: u64) -> Option<Seq<u64>> {
        match lp {
            None => None,
            Some(l) => {
                let queued = match self.ops.get(l) {
                    Some(list) => match find_first(list, covers_gpu(g)) {
                        Some(i) => Some(without(list[i].gpu_uids, g)),
                        None => None,
                    },
                    None => None,
                };
                match queued {
                    Some(k) => Some(k),
                    None => match self.nmx_c_partitions.get(pid) {
                        Some(p) => Some(without(p.gpu_uid_list, g)),
                        None => None,
                    },
                }
            },
        }
    }

    /// Like `keep_after_removal`, for a partition the database does not know.
    pub open spec fn keep_in_unknown_after_removal(self, pid: u32, g: u64) -> Option<Seq<u64>> {
        let queued = match self.unknown_removals.get(pid) {
            Some(list) => match find_first(list, covers_gpu(g)) {
                Some(i) => Some(without(list[i].gpu_uids, g)),
                None => None,
            },
            None => None,
        };
        match queued {
            Some(k) => Some(k),
            None => match self.nmx_c_partitions.get(pid) {
                Some(p) => Some(without(p.gpu_uid_list, g)),
                None => None,
            },
        }
    }

    pub open spec fn after_gpu_removal(self, g: GpuCtxView, keep: Seq<u64>) -> PpcView {
        let lp = g.logical_partition_id.unwrap();
        let op = removal_op(g, keep);
        let list = self.ops.get(lp);
        PpcView {
            ops: self.ops.insert(
                lp,
                queue(list, upsert_covering(list.unwrap(), g.gpu_guid, op, true), op),
            ),
            ..self
        }
    }

    pub open spec fn after_unknown_removal(self, pid: u32, g: u64, keep: Seq<u64>) -> PpcView {
        let op = unknown_removal_op(pid, keep);
        let list = self.unknown_removals.get(pid);
        PpcView {
            unknown_removals: self.unknown_removals.insert(
                pid,
                queue(list, upsert_covering(list.unwrap(), g, op, false), op),
            ),
            ..self
        }
    }

    pub open spec fn after_unknown_addition(self, pid: u32, g: u64, members: Seq<u64>) -> PpcView {
        let op = match self.unknown_additions.get(pid) {
            Some(o) => if o.gpu_uids.contains(g) {
                o
            } else {
                OpView { gpu_uids: o.gpu_uids.push(g), ..o }
            },
            None => OpView {
                domain_uuid: None,
                operation_type: NmxcPartitionOperationType::Update(pid),
                gpu_uids: members.push(g),
                name: Seq::empty(),
                db_partition_id: None,
            },
        };
        PpcView { unknown_additions: self.unknown_additions.insert(pid, op), ..self }
    }

    pub open spec fn after_addition_to_new(self, g: GpuCtxView) -> PpcView {
        let lp = g.logical_partition_id.unwrap();
        let op = create_op(g, lp);
        let list = self.ops.get(lp);
        PpcView {
            ops: self.ops.insert(
                lp,
                queue(list, join_first(list.unwrap(), in_domain(g.domain_uuid), g.gpu_guid, op), op),
            ),
            ..self
        }
    }

    /// The operation that adds `g`'s GPU to NMX-C partition `pid`, stored as `p`.
    pub open spec fn join_existing_op(self, g: GpuCtxView, p: NvlPartitionView, pid: u32) -> OpView {
        OpView {
            domain_uuid: Some(g.domain_uuid),
            operation_type: NmxcPartitionOperationType::Update(pid),
            gpu_uids: self.nmx_c_partitions.get(pid).unwrap().gpu_uid_list.push(g.gpu_guid),
            name: p.name,
            db_partition_id: g.partition_id,
        }
    }

    pub open spec fn after_addition_to_existing(self, g: GpuCtxView, p: NvlPartitionView) -> PpcView {
        let lp = g.logical_partition_id.unwrap();
        let pid = parse_u32_text(p.nmx_m_id).unwrap();
        let op = self.join_existing_op(g, p, pid);
        let list = self.ops.get(lp);
        PpcView {
            ops: self.ops.insert(
                lp,
                queue(list, join_first(list.unwrap(), updates_partition(pid), g.gpu_guid, op), op),
            ),
            ..self
        }
    }

    /// Whether adding `g`'s GPU to the existing partition `p` fails.
    pub open spec fn addition_to_existing_fails(self, g: GpuCtxView, p: NvlPartitionView) -> bool {
        g.logical_partition_id is None || self.nmx_c_partitions.get(
            parse_u32_text(p.nmx_m_id).unwrap(),
        ) is None
    }
}

/// Add `p` as the partition of each GPU of `gpus`, in order.
pub open spec fn insert_all_gpus(
    m: KeyedView<u64, PartitionInfoView>,
    gpus: Seq<u64>,
    p: PartitionInfoView,
) -> KeyedView<u64, PartitionInfoView>
    decreases gpus.len(),
{
    if gpus.len() == 0 {
        m
    } else {
        insert_all_gpus(m, gpus.drop_last(), p).insert(gpus.last(), p)
    }
}

/// Each GPU of the NMX-C partitions `parts` with its partition; a GPU listed
/// in several partitions gets the last of them.
pub open spec fn gpu_map_of(parts: Seq<PartitionInfoView>) -> KeyedView<u64, PartitionInfoView>
    decreases parts.len(),
{
    if parts.len() == 0 {
        KeyedView::empty()
    } else {
        insert_all_gpus(gpu_map_of(parts.drop_last()), parts.last().gpu_uid_list, parts.last())
    }
}

/// The NMX-C partitions that carry an id, by id; the last one of an id wins.
pub open spec fn partitions_by_id(parts: Seq<PartitionInfoView>) -> KeyedView<u32, PartitionInfoView>
    decreases parts.len(),
{
    if parts.len() == 0 {
        KeyedView::empty()
    } else {
        let m = partitions_by_id(parts.drop_last());
        match parts.last().partition_id {
            Some(id) => m.insert(id.partition_id, parts.last()),
            None => m,
        }
    }
}

/// The logical partitions by id; the last one of an id wins.
pub open spec fn logical_by_id(lps: Seq<LogicalPartition>) -> KeyedView<u128, LogicalPartition>
    decreases lps.len(),
{
    if lps.len() == 0 {
        KeyedView::empty()
    } else {
        logical_by_id(lps.drop_last()).insert(lps.last().id, lps.last())
    }
}

/// The database partitions whose NMX-C id is readable, by that id; the last one of an id wins.
pub open spec fn db_by_nmx_id(ps: Seq<NvlPartitionView>) -> KeyedView<u32, NvlPartitionView>
    decreases ps.len(),
{
    if ps.len() == 0 {
        KeyedView::empty()
    } else {
        let m = db_by_nmx_id(ps.drop_last());
        match parse_u32_text(ps.last().nmx_m_id) {
            Some(id) => m.insert(id, ps.last()),
            None => m,
        }
    }
}

pub open spec fn db_ids_readable(m: KeyedView<u32, NvlPartitionView>) -> bool {
    forall|i: int| 0 <= i < m.len() ==> parse_u32_text(#[trigger] m.vals[i].nmx_m_id) == Some(m.keys[i])
}

proof fn lemma_db_insert_readable(m: KeyedView<u32, NvlPartitionView>, k: u32, p: NvlPartitionView)
    requires
        m.wf(),
        db_ids_readable(m),
        parse_u32_text(p.nmx_m_id) == Some(k),
    ensures
        db_ids_readable(m.insert(k, p)),
{
    let n = m.insert(k, p);
    if m.keys.contains(k) {
        let idx = m.keys.index_of(k);
        assert forall|i: int| 0 <= i < n.len() implies parse_u32_text(#[trigger] n.vals[i].nmx_m_id) == Some(n.keys[i]) by {
            if i != idx {
                assert(n.vals[i] == m.vals[i]);
            }
        }
    } else {
        assert forall|i: int| 0 <= i < n.len() implies parse_u32_text(#[trigger] n.vals[i].nmx_m_id) == Some(n.keys[i]) by {
            if i < m.len() {
                assert(n.vals[i] == m.vals[i]);
            }
        }
    }
}

/// Everything the engine works with while reconciling one NvLink domain.
pub struct PartitionProcessingContext {
    pub nmx_c_partitions: KeyedVec<u32, PartitionInfo>,
    pub db_nvl_logical_partitions: KeyedVec<u128, LogicalPartition>,
    pub db_nvl_partitions: KeyedVec<u32, NvlPartition>,
    pub machine_nvlink_info: KeyedVec<u128, Option<MachineNvLinkInfo>>,
    pub gpu_to_partition_map: KeyedVec<u64, PartitionInfo>,
    pub nmx_c_operations: KeyedVec<u128, Vec<NmxcPartitionOperation>>,
    pub unknown_partition_removal_operations: KeyedVec<u32, Vec<NmxcPartitionOperation>>,
    pub unknown_partition_addition_operations: KeyedVec<u32, NmxcPartitionOperation>,
}

impl View for PartitionProcessingContext {
    type V = PpcView;

    open spec fn view(&self) -> PpcView {
        PpcView {
            nmx_c_partitions: self.nmx_c_partitions.view(),
            logical_partitions: self.db_nvl_logical_partitions.view(),
            db_partitions: self.db_nvl_partitions.view(),
            machine_nvlink_info: self.machine_nvlink_info.view(),
            gpu_map: self.gpu_to_partition_map.view(),
            ops: self.nmx_c_operations.view(),
            unknown_removals: self.unknown_partition_removal_operations.view(),
            unknown_additions: self.unknown_partition_addition_operations.view(),
        }
    }
}

impl PartitionProcessingContext {
    /// Map each GPU of the NMX-C partitions to its partition.
    pub fn build_gpu_to_partition_map(nmx_c_partitions: &Vec<PartitionInfo>) -> (m: KeyedVec<u64, PartitionInfo>)
        ensures
            m.wf(),
            m.view() == gpu_map_of(nmx_c_partitions.deep_view()),
    {
        let ghost parts = nmx_c_partitions.deep_view();
        let mut m: KeyedVec<u64, PartitionInfo> = KeyedVec::new();
        let mut i: usize = 0;
        while i < nmx_c_partitions.len()
            invariant
                i <= nmx_c_partitions@.len(),
                parts == nmx_c_partitions.deep_view(),
                m.wf(),
                m.view() == gpu_map_of(parts.take(i as int)),
            decreases nmx_c_partitions@.len() - i,
        {
            let partition = &nmx_c_partitions[i];
            let ghost base = m.view();
            let mut j: usize = 0;
            while j < partition.gpu_uid_list.len()
                invariant
                    j <= partition.gpu_uid_list@.len(),
                    partition@ == parts[i as int],
                    m.wf(),
                    m.view() == insert_all_gpus(base, partition.gpu_uid_list@.take(j as int), partition@),
                decreases partition.gpu_uid_list@.len() - j,
            {
                let g = partition.gpu_uid_list[j];
                m.insert(g, partition.duplicate());
                proof {
                    let t = partition.gpu_uid_list@.take(j + 1);
                    assert(t.drop_last() =~= partition.gpu_uid_list@.take(j as int));
                }
                j = j + 1;
            }
            proof {
                assert(partition.gpu_uid_list@.take(j as int) =~= partition.gpu_uid_list@);
                let t = parts.take(i + 1);
                assert(t.drop_last() =~= parts.take(i as int));
            }
            i = i + 1;
        }
        assert(parts.take(i as int) =~= parts);
        m
    }

    /// Index what NMX-C and the database hold for one domain; nothing is queued yet.
    pub fn new(
        nmx_c_partitions: Vec<PartitionInfo>,
        db_nvl_logical_partitions: Vec<LogicalPartition>,
        db_nvl_partitions: Vec<NvlPartition>,
        machine_nvlink_info: KeyedVec<u128, Option<MachineNvLinkInfo>>,
    ) -> (c: PartitionProcessingContext)
        requires
            machine_nvlink_info.wf(),
        ensures
            c@.wf(),
            c@.nmx_c_partitions == partitions_by_id(nmx_c_partitions.deep_view()),
            c@.logical_partitions == logical_by_id(db_nvl_logical_partitions@),
            c@.db_partitions == db_by_nmx_id(db_nvl_partitions.deep_view()),
            c@.machine_nvlink_info == machine_nvlink_info.view(),
            c@.gpu_map == gpu_map_of(nmx_c_partitions.deep_view()),
            c@.ops == KeyedView::<u128, Seq<OpView>>::empty(),
            c@.unknown_removals == KeyedView::<u32, Seq<OpView>>::empty(),
            c@.unknown_additions == KeyedView::<u32, OpView>::empty(),
    {
        let gpu_map = Self::build_gpu_to_partition_map(&nmx_c_partitions);

        let ghost parts = nmx_c_partitions.deep_view();
        let mut by_id: KeyedVec<u32, PartitionInfo> = KeyedVec::new();
        let mut i: usize = 0;
        while i < nmx_c_partitions.len()
            invariant
                i <= nmx_c_partitions@.len(),
                parts == nmx_c_partitions.deep_view(),
                by_id.wf(),
                by_id.view() == partitions_by_id(parts.take(i as int)),
            decreases nmx_c_partitions@.len() - i,
        {
            let p = &nmx_c_partitions[i];
            if let Some(id) = p.partition_id {
                by_id.insert(id.partition_id, p.duplicate());
            }
            proof {
                let t = parts.take(i + 1);
                assert(t.drop_last() =~= parts.take(i as int));
            }
            i = i + 1;
        }
        assert(parts.take(i as int) =~= parts);

        let mut lps: KeyedVec<u128, LogicalPartition> = KeyedVec::new();
        let mut i: usize = 0;
        while i < db_nvl_logical_partitions.len()
            invariant
                i <= db_nvl_logical_partitions@.len(),
                lps.wf(),
                lps.view() == logical_by_id(db_nvl_logical_partitions@.take(i as int)),
            decreases db_nvl_logical_partitions@.len() - i,
        {
            let lp = db_nvl_logical_partitions[i];
            lps.insert(lp.id, lp);
            proof {
                let t = db_nvl_logical_partitions@.take(i + 1);
                assert(t.drop_last() =~= db_nvl_logical_partitions@.take(i as int));
            }
            i = i + 1;
        }
        assert(db_nvl_logical_partitions@.take(i as int) =~= db_nvl_logical_partitions@);

        let ghost dbs = db_nvl_partitions.deep_view();
        let mut by_nmx: KeyedVec<u32, NvlPartition> = KeyedVec::new();
        let mut i: usize = 0;
        while i < db_nvl_partitions.len()
            invariant
                i <= db_nvl_partitions@.len(),
                dbs == db_nvl_partitions.deep_view(),
                by_nmx.wf(),
                db_ids_readable(by_nmx.view()),
                by_nmx.view() == db_by_nmx_id(dbs.take(i as int)),
            decreases db_nvl_partitions@.len() - i,
        {
            let p = &db_nvl_partitions[i];
            if let Some(id) = parse_u32(p.nmx_m_id.as_str()) {
                proof {
                    lemma_db_insert_readable(by_nmx.view(), id, p@);
                }
                by_nmx.insert(id, p.duplicate());
            }
            proof {
                let t = dbs.take(i + 1);
                assert(t.drop_last() =~= dbs.take(i as int));
            }
            i = i + 1;
        }
        assert(dbs.take(i as int) =~= dbs);

        PartitionProcessingContext {
            nmx_c_partitions: by_id,
            db_nvl_logical_partitions: lps,
            db_nvl_partitions: by_nmx,
            machine_nvlink_info,
            gpu_to_partition_map: gpu_map,
            nmx_c_operations: KeyedVec::new(),
            unknown_partition_removal_operations: KeyedVec::new(),
            unknown_partition_addition_operations: KeyedVec::new(),
        }
    }

    /// Queue the removal of `ctx`'s GPU from its logical partition's physical
    /// partition, keeping `gpus_to_keep`: a `Remove` when nothing is kept, an
    /// `Update` otherwise. A queued operation that already covers the GPU is
    /// rewritten instead of queueing a second one.
    pub fn handle_gpu_removal(&mut self, ctx: &GpuProcessingContext, gpus_to_keep: Vec<u64>) -> (r: Result<(), NvLinkManagerError>)
        requires
            old(self)@.wf(),
        ensures
            final(self)@.wf(),
            ctx.logical_partition_id is None ==> (r matches Err(NvLinkManagerError::Internal(m)) && m@
                == "Logical partition ID is required for GPU removal"@) && final(self)@ == old(self)@,
            ctx.logical_partition_id is Some ==> r is Ok && final(self)@ == old(self)@.after_gpu_removal(
                ctx@,
                gpus_to_keep@,
            ),
    {
        let lp = match ctx.logical_partition_id {
            Some(l) => l,
            None => {
                return Err(NvLinkManagerError::internal(String::from_str("Logical partition ID is required for GPU removal")));
            },
        };
        let pid = ctx.partition_nmx_c_id.partition_id;
        let operation_type = if gpus_to_keep.len() == 0 {
            NmxcPartitionOperationType::Remove(pid)
        } else {
            NmxcPartitionOperationType::Update(pid)
        };
        let operation = NmxcPartitionOperation {
            domain_uuid: Some(ctx.domain_uuid),
            operation_type,
            gpu_uids: gpus_to_keep,
            name: ctx.partition_name.clone(),
            db_partition_id: ctx.partition_id,
        };
        match self.nmx_c_operations.position(&lp) {
            Some(i) => {
                let list = self.nmx_c_operations.swap_value_at(i, Vec::new());
                let merged = upsert_covering_list(list, ctx.gpu_guid, operation, true);
                let _ = self.nmx_c_operations.swap_value_at(i, merged);
                proof {
                    assert(self.nmx_c_operations.view().vals =~= old(self).nmx_c_operations.view().vals.update(
                        i as int,
                        self.nmx_c_operations.view().vals[i as int],
                    ));
                }
            },
            None => {
                let mut list: Vec<NmxcPartitionOperation> = Vec::new();
                list.push(operation);
                assert(list.deep_view() =~= seq![operation@]);
                self.nmx_c_operations.insert(lp, list);
            },
        }
        assert(self@ =~= old(self)@.after_gpu_removal(ctx@, gpus_to_keep@));
        Ok(())
    }
    /// Queue the removal of GPU `gpu_guid` from NMX-C partition `partition_nmx_c_id`,
    /// which the database does not know, keeping `gpus_to_keep`.
    pub fn handle_gpu_removal_from_unknown_partition(
        &mut self,
        partition_nmx_c_id: &PartitionId,
        gpu_guid: u64,
        gpus_to_keep: Vec<u64>,
    ) -> (r: Result<(), NvLinkManagerError>)
        requires
            old(self)@.wf(),
        ensures
            final(self)@.wf(),
            r is Ok,
            final(self)@ == old(self)@.after_unknown_removal(
                partition_nmx_c_id.partition_id,
                gpu_guid,
                gpus_to_keep@,
            ),
    {
        let pid = partition_nmx_c_id.partition_id;
        let operation_type = if gpus_to_keep.len() == 0 {
            NmxcPartitionOperationType::RemoveUnknownPartition(pid)
        } else {
            NmxcPartitionOperationType::Update(pid)
        };
        let operation = NmxcPartitionOperation {
            domain_uuid: None,
            operation_type,
            gpu_uids: gpus_to_keep,
            name: String::new(),
            db_partition_id: None,
        };
        match self.unknown_partition_removal_operations.position(&pid) {
            Some(i) => {
                let list = self.unknown_partition_removal_operations.swap_value_at(i, Vec::new());
                let merged = upsert_covering_list(list, gpu_guid, operation, false);
                let _ = self.unknown_partition_removal_operations.swap_value_at(i, merged);
                proof {
                    assert(self.unknown_partition_removal_operations.view().vals
                        =~= old(self).unknown_partition_removal_operations.view().vals.update(
                        i as int,
                        self.unknown_partition_removal_operations.view().vals[i as int],
                    ));
                }
            },
            None => {
                let mut list: Vec<NmxcPartitionOperation> = Vec::new();
                list.push(operation);
                assert(list.deep_view() =~= seq![operation@]);
                self.unknown_partition_removal_operations.insert(pid, list);
            },
        }
        assert(self@ =~= old(self)@.after_unknown_removal(pid, gpu_guid, gpus_to_keep@));
        Ok(())
    }

    /// Queue adding GPU `gpu_guid` to NMX-C partition `partition_nmx_c_id`
    /// (whose members are `gpus_in_partition`), merging with an addition
    /// already queued for that partition.
    pub fn handle_gpu_addition_to_unknown_partition(
        &mut self,
        partition_nmx_c_id: &PartitionId,
        gpu_guid: u64,
        gpus_in_partition: Vec<u64>,
    ) -> (r: Result<(), NvLinkManagerError>)
        requires
            old(self)@.wf(),
        ensures
            final(self)@.wf(),
            r is Ok,
            final(self)@ == old(self)@.after_unknown_addition(
                partition_nmx_c_id.partition_id,
                gpu_guid,
                gpus_in_partition@,
            ),
    {
        let pid = partition_nmx_c_id.partition_id;
        let op = match self.unknown_partition_addition_operations.get(&pid) {
            Some(existing) => {
                let mut uids = crate::seqs::copy_u64s(&existing.gpu_uids);
                if !crate::seqs::contains_u64(&existing.gpu_uids, gpu_guid) {
                    uids.push(gpu_guid);
                }
                NmxcPartitionOperation {
                    domain_uuid: existing.domain_uuid,
                    operation_type: existing.operation_type,
                    gpu_uids: uids,
                    name: existing.name.clone(),
                    db_partition_id: existing.db_partition_id,
                }
            },
            None => {
                let mut gpu_uids = gpus_in_partition;
                gpu_uids.push(gpu_guid);
                NmxcPartitionOperation {
                    domain_uuid: None,
                    operation_type: NmxcPartitionOperationType::Update(pid),
                    gpu_uids,
                    name: String::new(),
                    db_partition_id: None,
                }
            },
        };
        self.unknown_partition_addition_operations.insert(pid, op);
        proof {
            lemma_insert_get(old(self).unknown_partition_addition_operations.view(), pid, op@, pid);
        }
        assert(self@ =~= old(self)@.after_unknown_addition(pid, gpu_guid, gpus_in_partition@));
        Ok(())
    }

    /// Queue creating a partition for `ctx`'s GPU in its logical partition, or
    /// add the GPU to a queued operation of that logical partition in the same domain.
    pub fn handle_gpu_addition_new_partition(&mut self, ctx: &GpuProcessingContext) -> (r: Result<(), NvLinkManagerError>)
        requires
            old(self)@.wf(),
        ensures
            final(self)@.wf(),
            ctx.logical_partition_id is None ==> (r matches Err(NvLinkManagerError::Internal(m)) && m@
                == "Logical partition ID is required for GPU addition to new partition"@) && final(self)@ == old(self)@,
            ctx.logical_partition_id is Some ==> r is Ok && final(self)@
                == old(self)@.after_addition_to_new(ctx@),
    {
        let lp = match ctx.logical_partition_id {
            Some(l) => l,
            None => {
                return Err(NvLinkManagerError::internal(String::from_str("Logical partition ID is required for GPU addition to new partition")));
            },
        };
        let mut gpu_uids: Vec<u64> = Vec::new();
        gpu_uids.push(ctx.gpu_guid);
        let guid_text = u64_text(ctx.gpu_guid);
        let name = uuid_string(lp).concat(guid_text.as_str());
        let operation = NmxcPartitionOperation {
            domain_uuid: Some(ctx.domain_uuid),
            operation_type: NmxcPartitionOperationType::Create,
            gpu_uids,
            name,
            db_partition_id: None,
        };
        assert(operation@ == create_op(ctx@, lp)) by {
            assert(operation.gpu_uids@ =~= seq![ctx.gpu_guid]);
        }
        match self.nmx_c_operations.position(&lp) {
            Some(i) => {
                let list = self.nmx_c_operations.swap_value_at(i, Vec::new());
                let merged = join_same_domain(list, ctx.domain_uuid, ctx.gpu_guid, operation);
                let _ = self.nmx_c_operations.swap_value_at(i, merged);
                proof {
                    assert(self.nmx_c_operations.view().vals =~= old(self).nmx_c_operations.view().vals.update(
                        i as int,
                        self.nmx_c_operations.view().vals[i as int],
                    ));
                }
            },
            None => {
                let mut list: Vec<NmxcPartitionOperation> = Vec::new();
                list.push(operation);
                assert(list.deep_view() =~= seq![operation@]);
                self.nmx_c_operations.insert(lp, list);
            },
        }
        assert(self@ =~= old(self)@.after_addition_to_new(ctx@));
        Ok(())
    }

    /// Queue adding `ctx`'s GPU to the existing physical partition `partition`
    /// of its logical partition: an `Update` to the partition's NMX-C members
    /// plus the GPU, or the GPU added to an `Update` of that partition already queued.
    pub fn handle_gpu_addition_existing_partition(
        &mut self,
        ctx: &GpuProcessingContext,
        partition: &NvlPartition,
    ) -> (r: Result<(), NvLinkManagerError>)
        requires
            old(self)@.wf(),
            parse_u32_text(partition.nmx_m_id@) is Some,
        ensures
            final(self)@.wf(),
            old(self)@.addition_to_existing_fails(ctx@, partition@) ==> r is Err && final(self)@
                == old(self)@,
            ctx.logical_partition_id is None ==> (r matches Err(NvLinkManagerError::Internal(m)) && m@
                == "Logical partition ID is required for GPU addition to existing partition"@),
            ctx.logical_partition_id is Some && old(self)@.nmx_c_partitions.get(parse_u32_text(partition.nmx_m_id@).unwrap())
                is None ==> (r matches Err(NvLinkManagerError::Internal(m)) && m@
                == "NMX-C partition not found for GPU addition to existing partition"@),
            !old(self)@.addition_to_existing_fails(ctx@, partition@) ==> r is Ok && final(self)@
                == old(self)@.after_addition_to_existing(ctx@, partition@),
    {
        let lp = match ctx.logical_partition_id {
            Some(l) => l,
            None => {
                return Err(NvLinkManagerError::internal(String::from_str("Logical partition ID is required for GPU addition to existing partition")));
            },
        };
        let nmx_c_partition_id = match parse_u32(partition.nmx_m_id.as_str()) {
            Some(v) => v,
            None => {
                return Err(NvLinkManagerError::internal(String::new()));
            },
        };
        let gpu_uids = match self.nmx_c_partitions.get(&nmx_c_partition_id) {
            Some(p) => {
                let mut uids = crate::seqs::copy_u64s(&p.gpu_uid_list);
                uids.push(ctx.gpu_guid);
                uids
            },
            None => {
                return Err(NvLinkManagerError::internal(String::from_str("NMX-C partition not found for GPU addition to existing partition")));
            },
        };
        let operation = NmxcPartitionOperation {
            domain_uuid: Some(ctx.domain_uuid),
            operation_type: NmxcPartitionOperationType::Update(nmx_c_partition_id),
            gpu_uids,
            name: partition.name.clone(),
            db_partition_id: ctx.partition_id,
        };
        match self.nmx_c_operations.position(&lp) {
            Some(i) => {
                let list = self.nmx_c_operations.swap_value_at(i, Vec::new());
                let merged = join_same_update(list, nmx_c_partition_id, ctx.gpu_guid, operation);
                let _ = self.nmx_c_operations.swap_value_at(i, merged);
                proof {
                    assert(self.nmx_c_operations.view().vals =~= old(self).nmx_c_operations.view().vals.update(
                        i as int,
                        self.nmx_c_operations.view().vals[i as int],
                    ));
                }
            },
            None => {
                let mut list: Vec<NmxcPartitionOperation> = Vec::new();
                list.push(operation);
                assert(list.deep_view() =~= seq![operation@]);
                self.nmx_c_operations.insert(lp, list);
            },
        }
        assert(self@ =~= old(self)@.after_addition_to_existing(ctx@, partition@));
        Ok(())
    }

    /// Whether logical partition `logical_partition_id` exists and is not marked as deleted.
    pub fn validate_logical_partition(&self, logical_partition_id: &u128) -> (b: bool)
        requires
            self@.wf(),
        ensures
            b == self@.logical_partition_usable(*logical_partition_id),
    {
        match self.db_nvl_logical_partitions.get(logical_partition_id) {
            Some(p) => !p.marked_as_deleted,
            None => false,
        }
    }

    /// The database's record of NMX-C partition `nmx_c_partition_id`: its id,
    /// logical partition, name and NMX-C id.
    pub fn get_db_partition_info(&self, nmx_c_partition_id: u32) -> (r: Option<(Option<u128>, Option<u128>, String, PartitionId)>)
        requires
            self@.wf(),
        ensures
            match self@.db_partitions.get(nmx_c_partition_id) {
                Some(p) => r matches Some(t) && t.0 == Some(p.id) && t.1 == p.logical_partition_id
                    && t.2@ == p.name && t.3 == (PartitionId { partition_id: nmx_c_partition_id }),
                None => r is None,
            },
    {
        match self.db_nvl_partitions.get(&nmx_c_partition_id) {
            Some(p) => Some((Some(p.id), p.logical_partition_id, p.name.clone(), PartitionId { partition_id: nmx_c_partition_id })),
            None => None,
        }
    }

    fn keep_from_queue(ops: Option<&Vec<NmxcPartitionOperation>>, gpu_guid: u64) -> (r: Option<Vec<u64>>)
        ensures
            match ops {
                Some(list) => match find_first(list.deep_view(), covers_gpu(gpu_guid)) {
                    Some(i) => r matches Some(v) && v@ == without(list.deep_view()[i].gpu_uids, gpu_guid),
                    None => r is None,
                },
                None => r is None,
            },
    {
        match ops {
            Some(list) => match crate::operation::first_covering(list, gpu_guid) {
                Some(i) => Some(copy_without(&list[i].gpu_uids, gpu_guid)),
                None => None,
            },
            None => None,
        }
    }

    /// The members to keep when GPU `gpu_guid` leaves its partition in
    /// logical partition `logical_partition_id`; `None` when there is no
    /// logical partition or nothing is known of the partition.
    pub fn get_gpus_to_keep_after_removal(
        &self,
        logical_partition_id: Option<u128>,
        partition_nmx_c_id: &PartitionId,
        gpu_guid: u64,
        machine_id: &u128,
        device_instance: u32,
    ) -> (r: Option<Vec<u64>>)
        requires
            self@.wf(),
        ensures
            match r {
                Some(v) => self@.keep_after_removal(logical_partition_id, partition_nmx_c_id.partition_id, gpu_guid) == Some(v@),
                None => self@.keep_after_removal(logical_partition_id, partition_nmx_c_id.partition_id, gpu_guid) is None,
            },
    {
        let lp = match logical_partition_id {
            Some(l) => l,
            None => {
                return None;
            },
        };
        match Self::keep_from_queue(self.nmx_c_operations.get(&lp), gpu_guid) {
            Some(k) => Some(k),
            None => match self.nmx_c_partitions.get(&partition_nmx_c_id.partition_id) {
                Some(p) => Some(copy_without(&p.gpu_uid_list, gpu_guid)),
                None => None,
            },
        }
    }

    /// The members to keep when GPU `gpu_guid` leaves NMX-C partition
    /// `partition_nmx_c_id`, which the database does not know.
    pub fn get_gpus_to_keep_in_unknown_partition_after_removal(
        &self,
        partition_nmx_c_id: &PartitionId,
        gpu_guid: u64,
        machine_id: &u128,
        device_instance: u32,
    ) -> (r: Option<Vec<u64>>)
        requires
            self@.wf(),
        ensures
            match r {
                Some(v) => self@.keep_in_unknown_after_removal(partition_nmx_c_id.partition_id, gpu_guid) == Some(v@),
                None => self@.keep_in_unknown_after_removal(partition_nmx_c_id.partition_id, gpu_guid) is None,
            },
    {
        match Self::keep_from_queue(self.unknown_partition_removal_operations.get(&partition_nmx_c_id.partition_id), gpu_guid) {
            Some(k) => Some(k),
            None => match self.nmx_c_partitions.get(&partition_nmx_c_id.partition_id) {
                Some(p) => Some(copy_without(&p.gpu_uid_list, gpu_guid)),
                None => None,
            },
        }
    }
}


/// The members of NMX-C partition `pid` left after taking out GPUs `g1` and
/// then `g2`.
pub open spec fn members_after_two_removals(ctx: PpcView, pid: u32, g1: u64, g2: u64) -> Seq<u64> {
    without(without(ctx.nmx_c_partitions.get(pid).unwrap().gpu_uid_list, g1), g2)
}

/// Law: two GPUs of one partition removed one after the other, with nothing
/// queued before and with the members to keep that `keep_after_removal`
/// gives each time, leave one operation for the partition: the second
/// removal rewrites the operation of the first instead of queuing another.
/// The operation keeps the members neither removal took out, and deletes the
/// partition when none is left.
pub proof fn lemma_second_removal_rewrites_first(ctx: PpcView, g1: GpuCtxView, g2: GpuCtxView, l: u128)
    requires
        ctx.wf(),
        g1.logical_partition_id == Some(l),
        ctx.ops.get(l) is None,
        g2.logical_partition_id == Some(l),
        g2.partition_nmx_c_id == g1.partition_nmx_c_id,
        ctx.nmx_c_partitions.get(g1.partition_nmx_c_id.partition_id) is Some,
        ctx.nmx_c_partitions.get(g1.partition_nmx_c_id.partition_id).unwrap().gpu_uid_list.contains(g2.gpu_guid),
        g1.gpu_guid != g2.gpu_guid,
    ensures
        ({
            let pid = g1.partition_nmx_c_id.partition_id;
            let k1 = without(ctx.nmx_c_partitions.get(pid).unwrap().gpu_uid_list, g1.gpu_guid);
            let c1 = ctx.after_gpu_removal(g1, k1);
            let k2 = members_after_two_removals(ctx, pid, g1.gpu_guid, g2.gpu_guid);
            &&& ctx.keep_after_removal(Some(l), pid, g1.gpu_guid) == Some(k1)
            &&& c1.keep_after_removal(Some(l), pid, g2.gpu_guid) == Some(k2)
            &&& c1.after_gpu_removal(g2, k2).ops.get(l) matches Some(list) && list.len() == 1
                && list[0].operation_type == (if k2.len() == 0 {
                NmxcPartitionOperationType::Remove(pid)
            } else {
                NmxcPartitionOperationType::Update(pid)
            }) && list[0].gpu_uids == k2
        }),
{
    let pid = g1.partition_nmx_c_id.partition_id;
    let members = ctx.nmx_c_partitions.get(pid).unwrap().gpu_uid_list;
    let k1 = without(members, g1.gpu_guid);
    let op1 = removal_op(g1, k1);
    let c1 = ctx.after_gpu_removal(g1, k1);
    lemma_insert_get(ctx.ops, l, seq![op1], l);
    assert(c1.ops.get(l) == Some(seq![op1]));
    crate::seqs::lemma_without(members, g1.gpu_guid);
    assert(k1.contains(g2.gpu_guid));
    assert(covers_gpu(g2.gpu_guid)(seq![op1][0]));
    assert(find_first(seq![op1], covers_gpu(g2.gpu_guid)) == Some(0int));
    let k2 = without(k1, g2.gpu_guid);
    let op2 = removal_op(g2, k2);
    let merged = upsert_covering(seq![op1], g2.gpu_guid, op2, true);
    assert(merged.len() == 1);
    lemma_insert_get(c1.ops, l, merged, l);
}

} // verus!
