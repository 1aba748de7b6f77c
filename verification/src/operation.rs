//! NMX-C partition operations that the reconciliation engine queues, and the
//! list edits used to merge a new operation into a queue.

use vstd::prelude::*;
use crate::seqs::{copy_u64s, contains_u64, find_first, lemma_find_first_is, lemma_find_first_none};

verus! {

/// The errors of the partition engine.
#[derive(Debug)]
pub enum NvLinkManagerError {
    Internal(String),
}

impl NvLinkManagerError {
    pub fn internal(msg: String) -> (e: NvLinkManagerError)
        ensures
            e == NvLinkManagerError::Internal(msg),
    {
        NvLinkManagerError::Internal(msg)
    }
}

/// What an operation asks NMX-C to do; the numbers are NMX-C partition ids.
#[derive(Clone, Copy, PartialEq, Eq, Structural, Debug)]
pub enum NmxcPartitionOperationType {
    Create,
    Remove(u32),
    RemoveUnknownPartition(u32),
    Update(u32),
}

/// One queued NMX-C partition operation.
#[derive(Debug)]
pub struct NmxcPartitionOperation {
    pub domain_uuid: Option<u128>,
    pub operation_type: NmxcPartitionOperationType,
    /// For `Create`: the members; for `Update`: the complete desired member list;
    /// for the removals: the members to keep (empty).
    pub gpu_uids: Vec<u64>,
    pub name: String,
    pub db_partition_id: Option<u128>,
}

pub struct OpView {
    pub domain_uuid: Option<u128>,
    pub operation_type: NmxcPartitionOperationType,
    pub gpu_uids: Seq<u64>,
    pub name: Seq<char>,
    pub db_partition_id: Option<u128>,
}

impl View for NmxcPartitionOperation {
    type V = OpView;

    open spec fn view(&self) -> OpView {
        OpView {
            domain_uuid: self.domain_uuid,
            operation_type: self.operation_type,
            gpu_uids: self.gpu_uids@,
            name: self.name@,
            db_partition_id: self.db_partition_id,
        }
    }
}

impl DeepView for NmxcPartitionOperation {
    type V = OpView;

    open spec fn deep_view(&self) -> OpView {
        self@
    }
}

impl NmxcPartitionOperation {
    pub fn duplicate(&self) -> (r: NmxcPartitionOperation)
        ensures
            r@ == self@,
    {
        NmxcPartitionOperation {
            domain_uuid: self.domain_uuid,
            operation_type: self.operation_type,
            gpu_uids: copy_u64s(&self.gpu_uids),
            name: self.name.clone(),
            db_partition_id: self.db_partition_id,
        }
    }
}

pub open spec fn covers_gpu(g: u64) -> spec_fn(OpView) -> bool {
    |op: OpView| op.gpu_uids.contains(g)
}

pub open spec fn in_domain(d: u128) -> spec_fn(OpView) -> bool {
    |op: OpView|
        match op.domain_uuid {
            Some(x) => x == d,
            None => d == 0,
        }
}

pub open spec fn updates_partition(pid: u32) -> spec_fn(OpView) -> bool {
    |op: OpView| op.operation_type == NmxcPartitionOperationType::Update(pid)
}

/// Merge `op` into `list`: if an operation of the list already covers GPU `g`,
/// the first such one takes `op`'s type and members (and its name when
/// `with_name`); otherwise `op` is appended.
pub open spec fn upsert_covering(list: Seq<OpView>, g: u64, op: OpView, with_name: bool) -> Seq<
    OpView,
> {
    match find_first(list, covers_gpu(g)) {
        Some(i) => list.update(
            i,
            OpView {
                operation_type: op.operation_type,
                gpu_uids: op.gpu_uids,
                name: if with_name {
                    op.name
                } else {
                    list[i].name
                },
                ..list[i]
            },
        ),
        None => list.push(op),
    }
}

/// Add GPU `g` to the first operation of `list` satisfying `p`, or append `op`.
pub open spec fn join_first(list: Seq<OpView>, p: spec_fn(OpView) -> bool, g: u64, op: OpView) -> Seq<
    OpView,
> {
    match find_first(list, p) {
        Some(i) => list.update(i, OpView { gpu_uids: list[i].gpu_uids.push(g), ..list[i] }),
        None => list.push(op),
    }
}

fn replace_at(list: Vec<NmxcPartitionOperation>, i: usize, op: NmxcPartitionOperation) -> (r: Vec<NmxcPartitionOperation>)
    requires
        i < list@.len(),
    ensures
        r.deep_view() == list.deep_view().update(i as int, op@),
{
    let mut list = list;
    let ghost before = list.deep_view();
    let _old = list.remove(i);
    list.insert(i, op);
    assert(list.deep_view() =~= before.update(i as int, op@));
    list
}

/// Position of the first operation whose members include `g`.
pub fn first_covering(list: &Vec<NmxcPartitionOperation>, g: u64) -> (r: Option<usize>)
    ensures
        match r {
            Some(i) => i < list@.len() && find_first(list.deep_view(), covers_gpu(g)) == Some(i as int),
            None => find_first(list.deep_view(), covers_gpu(g)) is None,
        },
{
    let ghost dv = list.deep_view();
    let mut i: usize = 0;
    while i < list.len()
        invariant
            i <= list@.len(),
            dv == list.deep_view(),
            forall|j: int| 0 <= j < i ==> !(#[trigger] covers_gpu(g)(dv[j])),
        decreases list@.len() - i,
    {
        if contains_u64(&list[i].gpu_uids, g) {
            proof {
                lemma_find_first_is(dv, covers_gpu(g), i as int);
            }
            return Some(i);
        }
        i = i + 1;
    }
    proof {
        lemma_find_first_none(dv, covers_gpu(g));
    }
    None
}

pub fn upsert_covering_list(
    list: Vec<NmxcPartitionOperation>,
    g: u64,
    op: NmxcPartitionOperation,
    with_name: bool,
) -> (r: Vec<NmxcPartitionOperation>)
    ensures
        r.deep_view() == upsert_covering(list.deep_view(), g, op@, with_name),
{
    match first_covering(&list, g) {
        Some(i) => {
            let cur = &list[i];
            let merged = NmxcPartitionOperation {
                domain_uuid: cur.domain_uuid,
                operation_type: op.operation_type,
                gpu_uids: op.gpu_uids,
                name: if with_name {
                    op.name
                } else {
                    cur.name.clone()
                },
                db_partition_id: cur.db_partition_id,
            };
            replace_at(list, i, merged)
        },
        None => {
            let mut list = list;
            let ghost before = list.deep_view();
            list.push(op);
            assert(list.deep_view() =~= before.push(op@));
            list
        },
    }
}

fn add_gpu_at(list: Vec<NmxcPartitionOperation>, i: usize, g: u64) -> (r: Vec<NmxcPartitionOperation>)
    requires
        i < list@.len(),
    ensures
        r.deep_view() == list.deep_view().update(
            i as int,
            OpView { gpu_uids: list.deep_view()[i as int].gpu_uids.push(g), ..list.deep_view()[i as int] },
        ),
{
    let cur = &list[i];
    let mut uids = copy_u64s(&cur.gpu_uids);
    uids.push(g);
    let merged = NmxcPartitionOperation {
        domain_uuid: cur.domain_uuid,
        operation_type: cur.operation_type,
        gpu_uids: uids,
        name: cur.name.clone(),
        db_partition_id: cur.db_partition_id,
    };
    replace_at(list, i, merged)
}

fn push_op(list: Vec<NmxcPartitionOperation>, op: NmxcPartitionOperation) -> (r: Vec<NmxcPartitionOperation>)
    ensures
        r.deep_view() == list.deep_view().push(op@),
{
    let mut list = list;
    let ghost before = list.deep_view();
    list.push(op);
    assert(list.deep_view() =~= before.push(op@));
    list
}

/// Add GPU `g` to the first operation in domain `d` (a missing domain counts as the nil one), or append `op`.
pub fn join_same_domain(list: Vec<NmxcPartitionOperation>, d: u128, g: u64, op: NmxcPartitionOperation) -> (r: Vec<NmxcPartitionOperation>)
    ensures
        r.deep_view() == join_first(list.deep_view(), in_domain(d), g, op@),
{
    let ghost dv = list.deep_view();
    let mut i: usize = 0;
    while i < list.len()
        invariant
            i <= list@.len(),
            dv == list.deep_view(),
            forall|j: int| 0 <= j < i ==> !(#[trigger] in_domain(d)(dv[j])),
        decreases list@.len() - i,
    {
        let dom = match list[i].domain_uuid {
            Some(x) => x,
            None => 0,
        };
        if dom == d {
            proof {
                lemma_find_first_is(dv, in_domain(d), i as int);
            }
            return add_gpu_at(list, i, g);
        }
        i = i + 1;
    }
    proof {
        lemma_find_first_none(dv, in_domain(d));
    }
    push_op(list, op)
}

/// Add GPU `g` to the first `Update` of partition `pid`, or append `op`.
pub fn join_same_update(list: Vec<NmxcPartitionOperation>, pid: u32, g: u64, op: NmxcPartitionOperation) -> (r: Vec<NmxcPartitionOperation>)
    ensures
        r.deep_view() == join_first(list.deep_view(), updates_partition(pid), g, op@),
{
    let ghost dv = list.deep_view();
    let mut i: usize = 0;
    while i < list.len()
        invariant
            i <= list@.len(),
            dv == list.deep_view(),
            forall|j: int| 0 <= j < i ==> !(#[trigger] updates_partition(pid)(dv[j])),
        decreases list@.len() - i,
    {
        let hit = match list[i].operation_type {
            NmxcPartitionOperationType::Update(p) => p == pid,
            _ => false,
        };
        if hit {
            proof {
                lemma_find_first_is(dv, updates_partition(pid), i as int);
            }
            return add_gpu_at(list, i, g);
        }
        i = i + 1;
    }
    proof {
        lemma_find_first_none(dv, updates_partition(pid));
    }
    push_op(list, op)
}

} // verus!
