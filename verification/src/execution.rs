//! Carrying out queued operations against NMX-C, and recording the outcome in
//! the database: the requests each operation turns into, the membership
//! changes of an update, which completions are kept, and the database changes
//! that follow.

use vstd::prelude::*;
use crate::keyed::{KeyedVec, KeyedView, lemma_insert_get};
use crate::model::{LogicalPartition, PartitionInfo, PartitionInfoView};
use crate::nmxc::{Context, NMX_C_GATEWAY_ID};
use crate::monitor::{nmx_c_partition_id_string, partition_id_text};
use crate::operation::{NmxcPartitionOperation, NmxcPartitionOperationType, NvLinkManagerError, OpView};
use crate::seqs::{copy_u64s, contains_u64, find_first, lemma_find_first_is, lemma_find_first_none};
use crate::text::{decimal_text, u64_text, uuid_string, uuid_text};

verus! {

/// The longest partition name, in characters, that is sent to NMX-C.
pub const MAX_PARTITION_NAME_CHARS: usize = 240;

/// The decimal texts of `uids` joined by ",".
pub open spec fn join_decimal(uids: Seq<u64>) -> Seq<char>
    decreases uids.len(),
{
    if uids.len() == 0 {
        Seq::empty()
    } else if uids.len() == 1 {
        decimal_text(uids[0] as nat)
    } else {
        join_decimal(uids.drop_last()) + seq![','] + decimal_text(uids.last() as nat)
    }
}

/// At most the first `n` characters of `s`.
pub open spec fn truncate_chars(s: Seq<char>, n: nat) -> Seq<char> {
    if s.len() <= n {
        s
    } else {
        s.take(n as int)
    }
}

/// The name under which a new partition of logical partition `lp` with
/// members `uids` is created: the logical partition id followed by the
/// members joined by ",", cut to 240 characters.
pub open spec fn create_name(lp: u128, uids: Seq<u64>) -> Seq<char> {
    truncate_chars(uuid_text(lp) + join_decimal(uids), MAX_PARTITION_NAME_CHARS as nat)
}

pub fn create_partition_name(logical_partition_id: u128, gpu_uids: &Vec<u64>) -> (name: String)
    ensures
        name@ == create_name(logical_partition_id, gpu_uids@),
{
    let mut joined = String::new();
    let mut i: usize = 0;
    let comma = ",";
    proof {
        reveal_strlit(",");
    }
    assert(joined@ =~= join_decimal(gpu_uids@.take(0)));
    while i < gpu_uids.len()
        invariant
            i <= gpu_uids@.len(),
            comma@ == seq![','],
            joined@ == join_decimal(gpu_uids@.take(i as int)),
        decreases gpu_uids@.len() - i,
    {
        let t = u64_text(gpu_uids[i]);
        if i > 0 {
            joined.append(comma);
        }
        joined.append(t.as_str());
        proof {
            let next = gpu_uids@.take(i + 1);
            assert(next.drop_last() =~= gpu_uids@.take(i as int));
            if i == 0 {
                assert(joined@ =~= decimal_text(gpu_uids@[0] as nat));
            } else {
                assert(joined@ =~= join_decimal(gpu_uids@.take(i as int)) + seq![','] + decimal_text(gpu_uids@[i as int] as nat));
            }
        }
        i = i + 1;
    }
    assert(gpu_uids@.take(i as int) =~= gpu_uids@);
    let full = uuid_string(logical_partition_id).concat(joined.as_str());
    let n = full.as_str().unicode_len();
    if n <= MAX_PARTITION_NAME_CHARS {
        full
    } else {
        let cut = full.as_str().substring_char(0, MAX_PARTITION_NAME_CHARS);
        assert(cut@ =~= full@.take(MAX_PARTITION_NAME_CHARS as int));
        String::from_str(cut)
    }
}

/// Law: the name sent to NMX-C is never longer than 240 characters and is a
/// prefix of the logical partition id followed by the member list.
pub proof fn lemma_create_name_bounded(lp: u128, uids: Seq<u64>)
    ensures
        create_name(lp, uids).len() <= MAX_PARTITION_NAME_CHARS,
        (uuid_text(lp) + join_decimal(uids)).take(create_name(lp, uids).len() as int) == create_name(lp, uids),
{
    let full = uuid_text(lp) + join_decimal(uids);
    if full.len() <= MAX_PARTITION_NAME_CHARS {
        assert(full.take(full.len() as int) =~= full);
    } else {
        assert(full.take(MAX_PARTITION_NAME_CHARS as int).take(MAX_PARTITION_NAME_CHARS as int) =~= full.take(MAX_PARTITION_NAME_CHARS as int));
    }
}

/// The NMX-C requests an operation turns into, in order. Each is sent from
/// gateway `gateway_id`.
#[derive(Debug)]
pub enum PartitionRequest {
    /// Create a partition with this name and these members, under the id
    /// NMX-C picks unless `partition_id` is given.
    Create {
        name: String,
        gpu_uids: Vec<u64>,
        partition_id: Option<u32>,
        context: Option<Context>,
        gateway_id: String,
    },
    /// Delete a partition.
    Delete { partition_id: u32, gateway_id: String },
    /// Read a partition's current members, before updating them.
    ReadMembers { partition_id: u32, gateway_id: String },
    /// Take members out of a partition, rerouting the fabric.
    RemoveMembers { partition_id: u32, gpu_uids: Vec<u64>, reroute: bool, gateway_id: String },
    /// Put members into a partition, rerouting the fabric.
    AddMembers { partition_id: u32, gpu_uids: Vec<u64>, reroute: bool, gateway_id: String },
}

/// `r` is the request that starts carrying out operation `op` of logical
/// partition `lp`.
pub open spec fn opens_operation(lp: u128, op: OpView, r: PartitionRequest) -> bool {
    match op.operation_type {
        NmxcPartitionOperationType::Create => r matches PartitionRequest::Create {
            name,
            gpu_uids,
            partition_id,
            context,
            gateway_id,
        } && name@ == create_name(lp, op.gpu_uids) && gpu_uids@ == op.gpu_uids
            && partition_id is None && context is None && gateway_id@ == NMX_C_GATEWAY_ID@,
        NmxcPartitionOperationType::Remove(p) => r matches PartitionRequest::Delete { partition_id, gateway_id }
            && partition_id == p && gateway_id@ == NMX_C_GATEWAY_ID@,
        NmxcPartitionOperationType::RemoveUnknownPartition(p) => r matches PartitionRequest::Delete {
            partition_id,
            gateway_id,
        } && partition_id == p && gateway_id@ == NMX_C_GATEWAY_ID@,
        NmxcPartitionOperationType::Update(p) => r matches PartitionRequest::ReadMembers { partition_id, gateway_id }
            && partition_id == p && gateway_id@ == NMX_C_GATEWAY_ID@,
    }
}

/// The request that starts carrying out operation `op` of logical partition
/// `lp`; it is sent from gateway "carbide". A create request carries no
/// context and leaves the partition id to NMX-C.
pub fn first_request(logical_partition_id: u128, op: &NmxcPartitionOperation) -> (r: PartitionRequest)
    ensures
        opens_operation(logical_partition_id, op@, r),
{
    let gateway_id = String::from_str(NMX_C_GATEWAY_ID);
    match op.operation_type {
        NmxcPartitionOperationType::Create => PartitionRequest::Create {
            name: create_partition_name(logical_partition_id, &op.gpu_uids),
            gpu_uids: copy_u64s(&op.gpu_uids),
            partition_id: None,
            context: None,
            gateway_id,
        },
        NmxcPartitionOperationType::Remove(p) => PartitionRequest::Delete { partition_id: p, gateway_id },
        NmxcPartitionOperationType::RemoveUnknownPartition(p) => PartitionRequest::Delete { partition_id: p, gateway_id },
        NmxcPartitionOperationType::Update(p) => PartitionRequest::ReadMembers { partition_id: p, gateway_id },
    }
}

pub open spec fn has_id(pid: u32) -> spec_fn(PartitionInfoView) -> bool {
    |p: PartitionInfoView| p.partition_id == Some(crate::model::PartitionId { partition_id: pid })
}

/// The members NMX-C reports for partition `pid`: those of the first listed
/// partition with that id, none if it is not listed.
pub open spec fn current_members(list: Seq<PartitionInfoView>, pid: u32) -> Seq<u64> {
    match find_first(list, has_id(pid)) {
        Some(i) => list[i].gpu_uid_list,
        None => Seq::empty(),
    }
}

pub fn current_members_of(list: &Vec<PartitionInfo>, pid: u32) -> (r: Vec<u64>)
    ensures
        r@ == current_members(list.deep_view(), pid),
{
    let ghost dv = list.deep_view();
    let mut i: usize = 0;
    while i < list.len()
        invariant
            i <= list@.len(),
            dv == list.deep_view(),
            forall|j: int| 0 <= j < i ==> !(#[trigger] has_id(pid)(dv[j])),
        decreases list@.len() - i,
    {
        let hit = match list[i].partition_id {
            Some(id) => id.partition_id == pid,
            None => false,
        };
        if hit {
            proof {
                lemma_find_first_is(dv, has_id(pid), i as int);
            }
            return copy_u64s(&list[i].gpu_uid_list);
        }
        i = i + 1;
    }
    proof {
        lemma_find_first_none(dv, has_id(pid));
    }
    Vec::new()
}

/// The elements of `a` that are not in `b`, each once, in order of first occurrence.
pub fn set_difference(a: &Vec<u64>, b: &Vec<u64>) -> (r: Vec<u64>)
    ensures
        r@.no_duplicates(),
        r@.to_set() == a@.to_set().difference(b@.to_set()),
{
    let mut r: Vec<u64> = Vec::new();
    let mut i: usize = 0;
    while i < a.len()
        invariant
            i <= a@.len(),
            r@.no_duplicates(),
            forall|x: u64| r@.contains(x) <==> (a@.take(i as int).contains(x) && !b@.contains(x)),
        decreases a@.len() - i,
    {
        let x = a[i];
        let ghost before = r@;
        if !contains_u64(b, x) && !contains_u64(&r, x) {
            r.push(x);
        }
        proof {
            assert(a@.take(i + 1) =~= a@.take(i as int).push(x));
            assert forall|y: u64| r@.contains(y) <==> (a@.take(i + 1).contains(y) && !b@.contains(y)) by {
                crate::seqs::lemma_contains_push(a@.take(i as int), x, y);
                crate::seqs::lemma_contains_push(before, x, y);
            }
        }
        i = i + 1;
    }
    assert(a@.take(i as int) =~= a@);
    assert(r@.to_set() =~= a@.to_set().difference(b@.to_set()));
    r
}

/// The membership change that turns `current` into `desired`: the members
/// to remove and the members to add.
pub fn update_membership_changes(desired: &Vec<u64>, current: &Vec<u64>) -> (r: (Vec<u64>, Vec<u64>))
    ensures
        r.0@.no_duplicates(),
        r.1@.no_duplicates(),
        r.0@.to_set() == current@.to_set().difference(desired@.to_set()),
        r.1@.to_set() == desired@.to_set().difference(current@.to_set()),
{
    (set_difference(current, desired), set_difference(desired, current))
}

/// Law: removing the members to remove from the current members and then
/// adding the members to add gives exactly the desired members, and no
/// member is both removed and added.
pub proof fn lemma_update_reaches_desired(desired: Seq<u64>, current: Seq<u64>, to_remove: Set<u64>, to_add: Set<u64>)
    requires
        to_remove == current.to_set().difference(desired.to_set()),
        to_add == desired.to_set().difference(current.to_set()),
    ensures
        current.to_set().difference(to_remove).union(to_add) == desired.to_set(),
        to_remove.disjoint(to_add),
{
    assert(current.to_set().difference(to_remove).union(to_add) =~= desired.to_set());
    assert(to_remove.intersect(to_add) =~= Set::empty());
}

/// The error answered when NMX-C's partition list could not be read.
pub fn partition_list_error(detail: &str) -> (e: NvLinkManagerError)
    ensures
        e matches NvLinkManagerError::Internal(m) && m@ == "Failed to get NMX-C partition info list: "@ + detail@,
{
    NvLinkManagerError::internal(String::from_str("Failed to get NMX-C partition info list: ").concat(detail))
}

pub open spec fn removals(desired: Seq<u64>, current: Seq<u64>) -> Set<u64> {
    current.to_set().difference(desired.to_set())
}

pub open spec fn additions(desired: Seq<u64>, current: Seq<u64>) -> Set<u64> {
    desired.to_set().difference(current.to_set())
}

pub open spec fn removes_exactly(r: PartitionRequest, pid: u32, members: Set<u64>) -> bool {
    r matches PartitionRequest::RemoveMembers { partition_id, gpu_uids, reroute, gateway_id } && partition_id == pid
        && reroute && gateway_id@ == NMX_C_GATEWAY_ID@ && gpu_uids@.no_duplicates()
        && gpu_uids@.to_set() == members
}

pub open spec fn adds_exactly(r: PartitionRequest, pid: u32, members: Set<u64>) -> bool {
    r matches PartitionRequest::AddMembers { partition_id, gpu_uids, reroute, gateway_id } && partition_id == pid
        && reroute && gateway_id@ == NMX_C_GATEWAY_ID@ && gpu_uids@.no_duplicates()
        && gpu_uids@.to_set() == members
}

proof fn lemma_empty_to_set(s: Seq<u64>)
    ensures
        s.len() == 0 <==> s.to_set() == Set::<u64>::empty(),
{
    if s.len() > 0 {
        assert(s.to_set().contains(s[0]));
    } else {
        assert(s.to_set() =~= Set::<u64>::empty());
    }
}

/// `r` are the requests that update partition `pid` from its `current`
/// members to the `desired` ones: the removal of the members no longer
/// wanted, then the addition of the missing ones, each only when it has
/// something to do.
pub open spec fn updates_membership(r: Seq<PartitionRequest>, pid: u32, desired: Seq<u64>, current: Seq<u64>) -> bool {
    let rm = removals(desired, current);
    let add = additions(desired, current);
    &&& rm.is_empty() && add.is_empty() ==> r.len() == 0
    &&& !rm.is_empty() && add.is_empty() ==> r.len() == 1 && removes_exactly(r[0], pid, rm)
    &&& rm.is_empty() && !add.is_empty() ==> r.len() == 1 && adds_exactly(r[0], pid, add)
    &&& !rm.is_empty() && !add.is_empty() ==> r.len() == 2 && removes_exactly(r[0], pid, rm) && adds_exactly(
        r[1],
        pid,
        add,
    )
}

/// The requests that update partition `partition_id` from its `current`
/// members to the `desired` ones, once they were read: first the removal of
/// the members no longer wanted, then the addition of the missing ones; a
/// request with nothing to do is left out. The update stops at the first
/// request that fails.
pub fn update_requests(partition_id: u32, desired: &Vec<u64>, current: &Vec<u64>) -> (r: Vec<PartitionRequest>)
    ensures
        updates_membership(r@, partition_id, desired@, current@),
{
    let (to_remove, to_add) = update_membership_changes(desired, current);
    proof {
        lemma_empty_to_set(to_remove@);
        lemma_empty_to_set(to_add@);
        assert(Set::<u64>::empty().is_empty());
    }
    let mut r: Vec<PartitionRequest> = Vec::new();
    if to_remove.len() > 0 {
        r.push(
            PartitionRequest::RemoveMembers {
                partition_id,
                gpu_uids: to_remove,
                reroute: true,
                gateway_id: String::from_str(NMX_C_GATEWAY_ID),
            },
        );
    }
    if to_add.len() > 0 {
        r.push(
            PartitionRequest::AddMembers {
                partition_id,
                gpu_uids: to_add,
                reroute: true,
                gateway_id: String::from_str(NMX_C_GATEWAY_ID),
            },
        );
    }
    r
}

/// What carrying out one operation does next.
pub enum OperationStep {
    /// Send this request; its answer decides the next step.
    Send(PartitionRequest),
    /// The operation is over: `Ok` when every request succeeded, else the
    /// error of the first that failed.
    Done(Result<(), String>),
}

/// Where the carrying out of one operation stands: the partition whose
/// members the request awaiting its answer reads, if it is such a read, and
/// the requests still to send after it.
pub struct OperationRun {
    pub reading: Option<u32>,
    pub queued: Vec<PartitionRequest>,
}

/// Start carrying out operation `op` of logical partition `lp`: send its
/// first request, and remember whether it reads a partition's members.
pub fn start_operation(logical_partition_id: u128, op: &NmxcPartitionOperation) -> (r: (OperationRun, OperationStep))
    ensures
        r.1 matches OperationStep::Send(q) && opens_operation(logical_partition_id, op@, q),
        r.0.reading == (match op.operation_type {
            NmxcPartitionOperationType::Update(p) => Some(p),
            _ => None::<u32>,
        }),
        r.0.queued@.len() == 0,
{
    let reading = match op.operation_type {
        NmxcPartitionOperationType::Update(p) => Some(p),
        _ => None,
    };
    (OperationRun { reading, queued: Vec::new() }, OperationStep::Send(first_request(logical_partition_id, op)))
}

/// The next step of carrying out operation `op` once the request awaiting
/// its answer got `answer` (the partitions it listed, for a read): a failure
/// ends the operation with its error; the members read decide the requests
/// that update the partition; otherwise the next queued request is sent, and
/// the operation is over when none is left.
pub fn operation_answer(run: OperationRun, op: &NmxcPartitionOperation, answer: Result<Vec<PartitionInfo>, String>) -> (r: (
    OperationRun,
    OperationStep,
))
    ensures
        answer matches Err(e) ==> (r.1 matches OperationStep::Done(Err(e2)) && e2@ == e@),
        answer is Ok && run.reading is None && run.queued@.len() == 0 ==> r.1 matches OperationStep::Done(Ok(())),
        answer is Ok && run.reading is None && run.queued@.len() > 0 ==> (r.1 matches OperationStep::Send(q) && q
            == run.queued@[0] && r.0.queued@ == run.queued@.drop_first()),
        answer matches Ok(listed) ==> (run.reading matches Some(p) ==> ({
            let sent = match r.1 {
                OperationStep::Send(q) => seq![q] + r.0.queued@,
                OperationStep::Done(_) => Seq::<PartitionRequest>::empty(),
            };
            &&& (r.1 matches OperationStep::Done(o) ==> o is Ok)
            &&& updates_membership(sent, p, op.gpu_uids@, current_members(listed.deep_view(), p))
        })),
        r.0.reading is None,
{
    match answer {
        Err(e) => (OperationRun { reading: None, queued: Vec::new() }, OperationStep::Done(Err(e))),
        Ok(listed) => {
            let mut queued = match run.reading {
                Some(p) => {
                    let current = current_members_of(&listed, p);
                    update_requests(p, &op.gpu_uids, &current)
                },
                None => run.queued,
            };
            if queued.len() == 0 {
                proof {
                    assert(queued@ =~= Seq::<PartitionRequest>::empty());
                }
                (OperationRun { reading: None, queued }, OperationStep::Done(Ok(())))
            } else {
                let ghost all = queued@;
                let q = queued.remove(0);
                proof {
                    assert(seq![q] + queued@ =~= all);
                    assert(queued@ =~= all.drop_first());
                }
                (OperationRun { reading: None, queued }, OperationStep::Send(q))
            }
        },
    }
}

/// Whether the outcome of operation `op` ends the whole run: a failure to
/// delete a partition the database does not know does.
pub fn ends_run(op: &NmxcPartitionOperation, outcome: &Result<(), String>) -> (b: bool)
    ensures
        b == (outcome is Err && failure_is_fatal(op@)),
{
    outcome.is_err() && match op.operation_type {
        NmxcPartitionOperationType::RemoveUnknownPartition(_) => true,
        _ => false,
    }
}

/// Keep a completed operation: a failure is dropped, except that a failure to
/// delete an unknown partition stops the whole run with an error.
pub open spec fn record_spec(
    completed: KeyedView<u128, Seq<OpView>>,
    lp: u128,
    op: OpView,
    success: bool,
) -> KeyedView<u128, Seq<OpView>> {
    if success {
        completed.insert(lp, match completed.get(lp) {
            Some(l) => l.push(op),
            None => seq![op],
        })
    } else {
        completed
    }
}

pub open spec fn failure_is_fatal(op: OpView) -> bool {
    op.operation_type is RemoveUnknownPartition
}

/// Record how an operation went: `outcome` is the NMX-C error text of a
/// failed request. A completed operation joins its logical partition's list;
/// a failed one is dropped, except that failing to delete an unknown
/// partition ends the whole run.
pub fn record_operation_result(
    completed: &mut KeyedVec<u128, Vec<NmxcPartitionOperation>>,
    logical_partition_id: u128,
    operation: NmxcPartitionOperation,
    outcome: Result<(), String>,
) -> (r: Result<(), NvLinkManagerError>)
    requires
        old(completed).wf(),
    ensures
        final(completed).wf(),
        match outcome {
            Err(e) => failure_is_fatal(operation@) ==> (r matches Err(NvLinkManagerError::Internal(m)) && m@
                == "Failed to delete default partition: "@ + e@) && final(completed).view() == old(completed).view(),
            Ok(_) => true,
        },
        !(outcome is Err && failure_is_fatal(operation@)) ==> r is Ok && final(completed).view() == record_spec(
            old(completed).view(),
            logical_partition_id,
            operation@,
            outcome is Ok,
        ),
{
    if let Err(e) = outcome {
        if let NmxcPartitionOperationType::RemoveUnknownPartition(_) = operation.operation_type {
            return Err(NvLinkManagerError::internal(String::from_str("Failed to delete default partition: ").concat(e.as_str())));
        }
        return Ok(());
    }
    let ghost op_v = operation@;
    match completed.position(&logical_partition_id) {
        Some(i) => {
            let mut list = completed.swap_value_at(i, Vec::new());
            let ghost before = list.deep_view();
            list.push(operation);
            assert(list.deep_view() =~= before.push(op_v));
            let _ = completed.swap_value_at(i, list);
            proof {
                assert(completed.view().vals =~= old(completed).view().vals.update(i as int, before.push(op_v)));
            }
        },
        None => {
            let mut list: Vec<NmxcPartitionOperation> = Vec::new();
            list.push(operation);
            assert(list.deep_view() =~= seq![op_v]);
            completed.insert(logical_partition_id, list);
        },
    }
    Ok(())
}

/// The number of operations in all the lists.
pub open spec fn total_ops(lists: Seq<Seq<OpView>>) -> nat
    decreases lists.len(),
{
    if lists.len() == 0 {
        0
    } else {
        total_ops(lists.drop_last()) + lists.last().len()
    }
}

/// The number of completed operations.
pub fn count_operations(completed: &KeyedVec<u128, Vec<NmxcPartitionOperation>>) -> (n: usize)
    requires
        completed.wf(),
        total_ops(completed.view().vals) <= usize::MAX,
    ensures
        n == total_ops(completed.view().vals),
{
    let ghost vals = completed.view().vals;
    let len = completed.len();
    let mut n: usize = 0;
    let mut i: usize = 0;
    while i < len
        invariant
            completed.wf(),
            len == vals.len(),
            vals == completed.view().vals,
            i <= len,
            n == total_ops(vals.take(i as int)),
            total_ops(vals) <= usize::MAX,
        decreases len - i,
    {
        proof {
            let t = vals.take(i + 1);
            assert(t.drop_last() =~= vals.take(i as int));
            lemma_total_ops_prefix(vals, i + 1);
        }
        n = n + completed.value_at(i).len();
        i = i + 1;
    }
    assert(vals.take(i as int) =~= vals);
    n
}

proof fn lemma_total_ops_prefix(lists: Seq<Seq<OpView>>, k: int)
    requires
        0 <= k <= lists.len(),
    ensures
        total_ops(lists.take(k)) <= total_ops(lists),
    decreases lists.len(),
{
    if k < lists.len() {
        lemma_total_ops_prefix(lists.drop_last(), k);
        assert(lists.drop_last().take(k) =~= lists.take(k));
    } else {
        assert(lists.take(k) =~= lists);
    }
}

/// Each carried-out operation, in execution order: its logical partition,
/// the operation, and whether it completed.
pub open spec fn outcome_items(results: Seq<(u128, NmxcPartitionOperation, Result<(), String>)>) -> Seq<(u128, OpView, bool)> {
    results.map_values(|t: (u128, NmxcPartitionOperation, Result<(), String>)| (t.0, t.1@, t.2 is Ok))
}

/// The completed operations after recording `items` in order.
pub open spec fn record_all(items: Seq<(u128, OpView, bool)>) -> KeyedView<u128, Seq<OpView>>
    decreases items.len(),
{
    if items.len() == 0 {
        KeyedView::empty()
    } else {
        let it = items.last();
        record_spec(record_all(items.drop_last()), it.0, it.1, it.2)
    }
}

/// The operations of logical partition `lp` that completed, in order.
pub open spec fn completed_for(items: Seq<(u128, OpView, bool)>, lp: u128) -> Seq<OpView>
    decreases items.len(),
{
    if items.len() == 0 {
        Seq::empty()
    } else {
        let r = completed_for(items.drop_last(), lp);
        if items.last().0 == lp && items.last().2 {
            r.push(items.last().1)
        } else {
            r
        }
    }
}

/// The number of operations that completed.
pub open spec fn num_completed(items: Seq<(u128, OpView, bool)>) -> nat
    decreases items.len(),
{
    if items.len() == 0 {
        0
    } else {
        num_completed(items.drop_last()) + if items.last().2 {
            1nat
        } else {
            0nat
        }
    }
}

/// An operation whose failure ends the whole run.
pub open spec fn fatal_failure() -> spec_fn((u128, OpView, bool)) -> bool {
    |t: (u128, OpView, bool)| !t.2 && failure_is_fatal(t.1)
}

proof fn lemma_total_ops_update(lists: Seq<Seq<OpView>>, i: int, l: Seq<OpView>)
    requires
        0 <= i < lists.len(),
    ensures
        total_ops(lists.update(i, l)) == total_ops(lists) - lists[i].len() + l.len(),
    decreases lists.len(),
{
    let u = lists.update(i, l);
    if i < lists.len() - 1 {
        lemma_total_ops_update(lists.drop_last(), i, l);
        assert(u.drop_last() =~= lists.drop_last().update(i, l));
    } else {
        assert(u.drop_last() =~= lists.drop_last());
    }
}

/// Law: recording outcomes one by one keeps, for each logical partition,
/// exactly its completed operations in execution order (no entry for a
/// logical partition with none), and the completed operations number as
/// many as the outcomes that completed.
pub proof fn lemma_record_all(items: Seq<(u128, OpView, bool)>)
    ensures
        record_all(items).wf(),
        forall|lp: u128| #[trigger] record_all(items).get(lp) == if completed_for(items, lp).len() > 0 {
            Some(completed_for(items, lp))
        } else {
            None
        },
        total_ops(record_all(items).vals) == num_completed(items),
    decreases items.len(),
{
    if items.len() > 0 {
        let prev = items.drop_last();
        let c = record_all(prev);
        let it = items.last();
        lemma_record_all(prev);
        if it.2 {
            let nl = match c.get(it.0) {
                Some(l) => l.push(it.1),
                None => seq![it.1],
            };
            assert forall|lp: u128| #[trigger] record_all(items).get(lp) == if completed_for(items, lp).len() > 0 {
                Some(completed_for(items, lp))
            } else {
                None
            } by {
                lemma_insert_get(c, it.0, nl, lp);
                if lp == it.0 {
                    assert(completed_for(items, lp) == completed_for(prev, lp).push(it.1));
                    if completed_for(prev, lp).len() == 0 {
                        assert(completed_for(prev, lp).push(it.1) =~= seq![it.1]);
                    }
                }
            }
            lemma_insert_get(c, it.0, nl, it.0);
            if c.keys.contains(it.0) {
                let idx = c.keys.index_of(it.0);
                assert(c.vals[idx] == c.get(it.0).unwrap());
                lemma_total_ops_update(c.vals, idx, nl);
            } else {
                assert(c.insert(it.0, nl).vals.drop_last() =~= c.vals);
            }
        } else {
            assert forall|lp: u128| #[trigger] record_all(items).get(lp) == if completed_for(items, lp).len() > 0 {
                Some(completed_for(items, lp))
            } else {
                None
            } by {
                assert(completed_for(items, lp) == completed_for(prev, lp));
            }
        }
    }
}

/// The completed operations of a run, from each carried-out operation in
/// execution order with the NMX-C error text of a failed request: recorded
/// one by one with `record_operation_result`. The first failure to delete an
/// unknown partition ends the run with its error.
pub fn completed_operations(results: &Vec<(u128, NmxcPartitionOperation, Result<(), String>)>) -> (r: Result<
    KeyedVec<u128, Vec<NmxcPartitionOperation>>,
    NvLinkManagerError,
>)
    ensures
        match find_first(outcome_items(results@), fatal_failure()) {
            Some(i) => r matches Err(NvLinkManagerError::Internal(m)) && (results@[i].2 matches Err(e) && m@
                == "Failed to delete default partition: "@ + e@),
            None => r matches Ok(c) && c.wf() && c.view() == record_all(outcome_items(results@)),
        },
{
    let ghost items = outcome_items(results@);
    let mut completed: KeyedVec<u128, Vec<NmxcPartitionOperation>> = KeyedVec::new();
    let mut i: usize = 0;
    assert(completed.view() =~= record_all(items.take(0)));
    while i < results.len()
        invariant
            i <= results@.len(),
            items == outcome_items(results@),
            completed.wf(),
            completed.view() == record_all(items.take(i as int)),
            forall|j: int| 0 <= j < i ==> !fatal_failure()(#[trigger] items[j]),
        decreases results@.len() - i,
    {
        let lp = results[i].0;
        let op = results[i].1.duplicate();
        let outcome: Result<(), String> = match &results[i].2 {
            Ok(()) => Ok(()),
            Err(e) => Err(e.clone()),
        };
        assert(items[i as int] == (lp, op@, outcome is Ok));
        match record_operation_result(&mut completed, lp, op, outcome) {
            Ok(()) => {},
            Err(e) => {
                proof {
                    crate::seqs::lemma_find_first_is(items, fatal_failure(), i as int);
                }
                return Err(e);
            },
        }
        proof {
            let t = items.take(i + 1);
            assert(t.drop_last() =~= items.take(i as int));
        }
        i = i + 1;
    }
    proof {
        assert(items.take(i as int) =~= items);
        lemma_find_first_none(items, fatal_failure());
    }
    Ok(completed)
}

/// The kind of an operation, as the changes applied to NMX-C are counted.
#[derive(Clone, Copy, PartialEq, Eq, Structural, Debug)]
pub enum OperationKind {
    Create,
    Remove,
    RemoveUnknownPartition,
    Update,
}

/// How an operation carried out against NMX-C went.
#[derive(Clone, Copy, PartialEq, Eq, Structural, Debug)]
pub enum NmxmPartitionOperationStatus {
    Completed,
    Failed,
}

/// A change applied to NMX-C, as it is counted.
#[derive(Clone, Copy, PartialEq, Eq, Structural, Debug)]
pub struct AppliedChange {
    pub operation: OperationKind,
    pub status: NmxmPartitionOperationStatus,
}

pub open spec fn kind_of(t: NmxcPartitionOperationType) -> OperationKind {
    match t {
        NmxcPartitionOperationType::Create => OperationKind::Create,
        NmxcPartitionOperationType::Remove(_) => OperationKind::Remove,
        NmxcPartitionOperationType::RemoveUnknownPartition(_) => OperationKind::RemoveUnknownPartition,
        NmxcPartitionOperationType::Update(_) => OperationKind::Update,
    }
}

pub open spec fn change_of(item: (u128, OpView, bool)) -> AppliedChange {
    AppliedChange {
        operation: kind_of(item.1.operation_type),
        status: if item.2 {
            NmxmPartitionOperationStatus::Completed
        } else {
            NmxmPartitionOperationStatus::Failed
        },
    }
}

/// How many of the carried-out operations `items` count as change `c`; the
/// failure that ends a run is not counted.
pub open spec fn change_count(items: Seq<(u128, OpView, bool)>, c: AppliedChange) -> nat
    decreases items.len(),
{
    if items.len() == 0 {
        0
    } else {
        change_count(items.drop_last(), c) + if !fatal_failure()(items.last()) && change_of(items.last()) == c {
            1nat
        } else {
            0nat
        }
    }
}

proof fn lemma_change_count_bound(items: Seq<(u128, OpView, bool)>, c: AppliedChange)
    ensures
        change_count(items, c) <= items.len(),
    decreases items.len(),
{
    if items.len() > 0 {
        lemma_change_count_bound(items.drop_last(), c);
    }
}

fn change_for(op: &NmxcPartitionOperation, outcome: &Result<(), String>) -> (c: AppliedChange)
    ensures
        c == change_of((0, op@, outcome is Ok)),
{
    let operation = match op.operation_type {
        NmxcPartitionOperationType::Create => OperationKind::Create,
        NmxcPartitionOperationType::Remove(_) => OperationKind::Remove,
        NmxcPartitionOperationType::RemoveUnknownPartition(_) => OperationKind::RemoveUnknownPartition,
        NmxcPartitionOperationType::Update(_) => OperationKind::Update,
    };
    let status = if outcome.is_ok() {
        NmxmPartitionOperationStatus::Completed
    } else {
        NmxmPartitionOperationStatus::Failed
    };
    AppliedChange { operation, status }
}

/// The changes applied to NMX-C by the carried-out operations `results`,
/// each with how many times it was applied, in order of first occurrence;
/// the failure that ends a run is not counted.
pub fn applied_changes(results: &Vec<(u128, NmxcPartitionOperation, Result<(), String>)>) -> (r: Vec<(AppliedChange, usize)>)
    ensures
        forall|i: int| 0 <= i < r@.len() ==> (#[trigger] r@[i]).1 == change_count(outcome_items(results@), r@[i].0)
            && r@[i].1 > 0,
        forall|i: int, j: int| 0 <= i < j < r@.len() ==> (#[trigger] r@[i]).0 != (#[trigger] r@[j]).0,
        forall|c: AppliedChange| #[trigger] change_count(outcome_items(results@), c) > 0 ==> exists|i: int|
            0 <= i < r@.len() && (#[trigger] r@[i]).0 == c,
{
    let ghost items = outcome_items(results@);
    let mut r: Vec<(AppliedChange, usize)> = Vec::new();
    let mut i: usize = 0;
    while i < results.len()
        invariant
            i <= results@.len(),
            items == outcome_items(results@),
            forall|k: int| 0 <= k < r@.len() ==> (#[trigger] r@[k]).1 == change_count(items.take(i as int), r@[k].0)
                && r@[k].1 > 0,
            forall|k: int, j: int| 0 <= k < j < r@.len() ==> (#[trigger] r@[k]).0 != (#[trigger] r@[j]).0,
            forall|c: AppliedChange| #[trigger] change_count(items.take(i as int), c) > 0 ==> exists|k: int|
                0 <= k < r@.len() && (#[trigger] r@[k]).0 == c,
        decreases results@.len() - i,
    {
        let ghost before = r@;
        let ghost t = items.take(i + 1);
        proof {
            assert(t.drop_last() =~= items.take(i as int));
            assert(t.last() == items[i as int]);
            assert(items[i as int] == (results@[i as int].0, results@[i as int].1@, results@[i as int].2 is Ok));
        }
        let op = &results[i].1;
        let outcome = &results[i].2;
        if !ends_run(op, outcome) {
            let c = change_for(op, outcome);
            assert(change_of(items[i as int]) == c);
            let mut j: usize = 0;
            let mut found = false;
            while j < r.len()
                invariant_except_break
                    !found,
                    forall|k: int| 0 <= k < j ==> (#[trigger] r@[k]).0 != c,
                invariant
                    j <= r@.len(),
                    r@ == before,
                ensures
                    found ==> j < r@.len() && r@[j as int].0 == c,
                    !found ==> forall|k: int| 0 <= k < r@.len() ==> (#[trigger] r@[k]).0 != c,
                decreases r@.len() - j,
            {
                if r[j].0 == c {
                    found = true;
                    break;
                }
                j = j + 1;
            }
            if found {
                proof {
                    lemma_change_count_bound(items.take(i as int), c);
                }
                let n = r[j].1 + 1;
                r.set(j, (c, n));
                proof {
                    assert forall|k: int| 0 <= k < r@.len() implies (#[trigger] r@[k]).1 == change_count(t, r@[k].0)
                        && r@[k].1 > 0 by {
                        if k != j {
                            assert(r@[k] == before[k]);
                        }
                    }
                    assert forall|k: int, l: int| 0 <= k < l < r@.len() implies (#[trigger] r@[k]).0 != (#[trigger] r@[l]).0 by {
                        assert(r@[k].0 == before[k].0 && r@[l].0 == before[l].0);
                    }
                    assert forall|d: AppliedChange| #[trigger] change_count(t, d) > 0 implies exists|k: int|
                        0 <= k < r@.len() && (#[trigger] r@[k]).0 == d by {
                        if d == c {
                            assert(r@[j as int].0 == d);
                        } else {
                            assert(change_count(items.take(i as int), d) > 0);
                            let k = choose|k: int| 0 <= k < before.len() && (#[trigger] before[k]).0 == d;
                            assert(r@[k].0 == d);
                        }
                    }
                }
            } else {
                r.push((c, 1));
                proof {
                    assert(change_count(items.take(i as int), c) == 0) by {
                        if change_count(items.take(i as int), c) > 0 {
                            let k = choose|k: int| 0 <= k < before.len() && (#[trigger] before[k]).0 == c;
                            assert(before[k].0 != c);
                        }
                    }
                    assert forall|k: int| 0 <= k < r@.len() implies (#[trigger] r@[k]).1 == change_count(t, r@[k].0)
                        && r@[k].1 > 0 by {
                        if k < before.len() {
                            assert(r@[k] == before[k]);
                        }
                    }
                    assert forall|k: int, l: int| 0 <= k < l < r@.len() implies (#[trigger] r@[k]).0 != (#[trigger] r@[l]).0 by {
                        if l < before.len() {
                            assert(r@[k] == before[k] && r@[l] == before[l]);
                        } else {
                            assert(r@[k] == before[k]);
                        }
                    }
                    assert forall|d: AppliedChange| #[trigger] change_count(t, d) > 0 implies exists|k: int|
                        0 <= k < r@.len() && (#[trigger] r@[k]).0 == d by {
                        if d == c {
                            assert(r@[before.len() as int].0 == d);
                        } else {
                            assert(change_count(items.take(i as int), d) > 0);
                            let k = choose|k: int| 0 <= k < before.len() && (#[trigger] before[k]).0 == d;
                            assert(r@[k].0 == d);
                        }
                    }
                }
            }
        } else {
            proof {
                assert forall|d: AppliedChange| change_count(t, d) == change_count(items.take(i as int), d) by {}
            }
        }
        i = i + 1;
    }
    assert(items.take(i as int) =~= items);
    r
}

/// A change to the database after NMX-C carried out operations.
#[derive(Debug)]
pub enum DbChange {
    /// Record a newly created physical partition.
    CreatePartition { logical_partition_id: u128, name: String, domain_uuid: u128, nmx_m_id: String },
    /// Delete a physical partition's record.
    DeletePartition { id: u128 },
    /// Delete a logical partition marked as deleted.
    DeleteLogicalPartition { id: u128 },
}

pub enum DbChangeView {
    CreatePartition { logical_partition_id: u128, name: Seq<char>, domain_uuid: u128, nmx_m_id: Seq<char> },
    DeletePartition { id: u128 },
    DeleteLogicalPartition { id: u128 },
}

impl View for DbChange {
    type V = DbChangeView;

    open spec fn view(&self) -> DbChangeView {
        match self {
            DbChange::CreatePartition { logical_partition_id, name, domain_uuid, nmx_m_id } => DbChangeView::CreatePartition {
                logical_partition_id: *logical_partition_id,
                name: name@,
                domain_uuid: *domain_uuid,
                nmx_m_id: nmx_m_id@,
            },
            DbChange::DeletePartition { id } => DbChangeView::DeletePartition { id: *id },
            DbChange::DeleteLogicalPartition { id } => DbChangeView::DeleteLogicalPartition { id: *id },
        }
    }
}

impl DeepView for DbChange {
    type V = DbChangeView;

    open spec fn deep_view(&self) -> DbChangeView {
        self@
    }
}

/// The key of a partition's id text: 0 for no id, the id plus one otherwise.
pub open spec fn id_text_key(p: PartitionInfoView) -> u64 {
    match p.partition_id {
        Some(id) => (id.partition_id + 1) as u64,
        None => 0,
    }
}

/// Law: two partitions have the same id text exactly when they have the
/// same id key, so indexing by the key is indexing by the id text.
pub proof fn lemma_id_text_key(p: PartitionInfoView, q: PartitionInfoView)
    ensures
        (partition_id_text(p) == partition_id_text(q)) <==> (id_text_key(p) == id_text_key(q)),
{
    match (p.partition_id, q.partition_id) {
        (Some(a), Some(b)) => {
            crate::text::lemma_parse_u32_of_decimal(a.partition_id);
            crate::text::lemma_parse_u32_of_decimal(b.partition_id);
        },
        (Some(a), None) => {
            crate::text::lemma_parse_u32_of_decimal(a.partition_id);
        },
        (None, Some(b)) => {
            crate::text::lemma_parse_u32_of_decimal(b.partition_id);
        },
        (None, None) => {},
    }
}

/// The fresh NMX-C partitions by id text; the last one of a text wins.
pub open spec fn fresh_by_id_text(list: Seq<PartitionInfoView>) -> KeyedView<u64, PartitionInfoView>
    decreases list.len(),
{
    if list.len() == 0 {
        KeyedView::empty()
    } else {
        fresh_by_id_text(list.drop_last()).insert(id_text_key(list.last()), list.last())
    }
}

/// Each partition the index by id text holds is one of the listed partitions.
proof fn lemma_fresh_from_list(list: Seq<PartitionInfoView>)
    ensures
        fresh_by_id_text(list).keys.len() == fresh_by_id_text(list).vals.len(),
        forall|i: int| 0 <= i < fresh_by_id_text(list).vals.len() ==> list.contains(
            #[trigger] fresh_by_id_text(list).vals[i],
        ),
    decreases list.len(),
{
    if list.len() > 0 {
        let rest = list.drop_last();
        lemma_fresh_from_list(rest);
        let m = fresh_by_id_text(rest);
        let n = fresh_by_id_text(list);
        let k = id_text_key(list.last());
        if m.keys.contains(k) {
            let idx = m.keys.index_of(k);
            assert(m.keys[idx] == k);
        }
        assert forall|i: int| 0 <= i < n.vals.len() implies list.contains(#[trigger] n.vals[i]) by {
            if n.vals[i] == list.last() {
                assert(list[list.len() - 1] == list.last());
            } else {
                assert(n.vals[i] == m.vals[i]);
                let j = choose|j: int| 0 <= j < rest.len() && rest[j] == m.vals[i];
                assert(list[j] == rest[j]);
            }
        }
    }
}

/// Law: a completed create is recorded, if at all, once, under the logical
/// partition it was made for, with its name and domain, and under the NMX-C id of one
/// of the fresh partitions that holds exactly the created members; it is not
/// recorded when no fresh partition holds exactly those members.
pub proof fn lemma_create_recorded_under_matching_partition(lp: u128, op: OpView, fresh: Seq<PartitionInfoView>)
    requires
        op.operation_type == NmxcPartitionOperationType::Create,
    ensures
        op_changes(lp, op, fresh_by_id_text(fresh)).len() <= 1,
        forall|i: int| 0 <= i < op_changes(lp, op, fresh_by_id_text(fresh)).len() ==> (#[trigger] op_changes(
            lp,
            op,
            fresh_by_id_text(fresh),
        )[i] matches DbChangeView::CreatePartition { logical_partition_id, name, nmx_m_id, domain_uuid } && logical_partition_id
            == lp && name == op.name && domain_uuid == (match op.domain_uuid {
            Some(d) => d,
            None => 0,
        }) && exists|k: int|
            0 <= k < fresh.len() && (#[trigger] fresh[k]).gpu_uid_list.to_set() == op.gpu_uids.to_set() && nmx_m_id
                == partition_id_text(fresh[k])),
        (forall|k: int| 0 <= k < fresh.len() ==> (#[trigger] fresh[k]).gpu_uid_list.to_set() != op.gpu_uids.to_set())
            ==> op_changes(lp, op, fresh_by_id_text(fresh)).len() == 0,
{
    let m = fresh_by_id_text(fresh);
    lemma_fresh_from_list(fresh);
    crate::seqs::lemma_find_first(m.vals, same_members(op.gpu_uids));
    match find_first(m.vals, same_members(op.gpu_uids)) {
        Some(i) => {
            let v = m.vals[i];
            assert(fresh.contains(v));
            let k = choose|k: int| 0 <= k < fresh.len() && fresh[k] == v;
            assert(fresh[k].gpu_uid_list.to_set() == op.gpu_uids.to_set());
        },
        None => {},
    }
}

/// Change `c` records the created partition of the create
/// `op` of logical partition `lp`, with its name and domain, under the NMX-C
/// id of a fresh partition holding exactly the created members.
pub open spec fn records_create_of(c: DbChangeView, lp: u128, op: OpView, fresh: Seq<PartitionInfoView>) -> bool {
    c matches DbChangeView::CreatePartition { logical_partition_id, name, nmx_m_id, domain_uuid } && logical_partition_id == lp
        && name == op.name && domain_uuid == (match op.domain_uuid {
        Some(d) => d,
        None => 0,
    }) && op.operation_type == NmxcPartitionOperationType::Create && exists|k: int|
        0 <= k < fresh.len() && (#[trigger] fresh[k]).gpu_uid_list.to_set() == op.gpu_uids.to_set() && nmx_m_id
            == partition_id_text(fresh[k])
}

proof fn lemma_ops_changes_backed(lp: u128, ops: Seq<OpView>, fresh: Seq<PartitionInfoView>)
    ensures
        forall|i: int| 0 <= i < ops_changes(lp, ops, fresh_by_id_text(fresh)).len() && (#[trigger] ops_changes(
            lp,
            ops,
            fresh_by_id_text(fresh),
        )[i]) is CreatePartition ==> exists|b: int| 0 <= b < ops.len() && records_create_of(
            ops_changes(lp, ops, fresh_by_id_text(fresh))[i],
            lp,
            #[trigger] ops[b],
            fresh,
        ),
    decreases ops.len(),
{
    if ops.len() > 0 {
        let rest = ops.drop_last();
        lemma_ops_changes_backed(lp, rest, fresh);
        let m = fresh_by_id_text(fresh);
        let a = ops_changes(lp, rest, m);
        let last = op_changes(lp, ops.last(), m);
        let all = ops_changes(lp, ops, m);
        assert forall|i: int| 0 <= i < all.len() && (#[trigger] all[i]) is CreatePartition implies exists|b: int|
            0 <= b < ops.len() && records_create_of(all[i], lp, #[trigger] ops[b], fresh) by {
            if i < a.len() {
                assert(all[i] == a[i]);
                let b = choose|b: int| 0 <= b < rest.len() && records_create_of(a[i], lp, #[trigger] rest[b], fresh);
                assert(ops[b] == rest[b]);
            } else {
                assert(all[i] == last[i - a.len()]);
                let op = ops.last();
                match op.operation_type {
                    NmxcPartitionOperationType::Create => {
                        lemma_create_recorded_under_matching_partition(lp, op, fresh);
                        assert(last[i - a.len()] == all[i]);
                    },
                    _ => {},
                }
                assert(ops[ops.len() - 1] == op);
            }
        }
    }
}

/// Law: each created partition the database update records is a completed
/// create of the logical partition it is recorded under, with that
/// create's name and domain, under the NMX-C id of a fresh partition that holds exactly
/// the created members.
pub proof fn lemma_plan_records_creates_by_members(
    keys: Seq<u128>,
    lists: Seq<Seq<OpView>>,
    fresh: Seq<PartitionInfoView>,
)
    ensures
        forall|i: int| 0 <= i < completed_changes(keys, lists, fresh_by_id_text(fresh)).len() && (#[trigger] completed_changes(
            keys,
            lists,
            fresh_by_id_text(fresh),
        )[i]) is CreatePartition ==> exists|a: int, b: int|
            0 <= a < keys.len() && a < lists.len() && 0 <= b < lists[a].len() && records_create_of(
                completed_changes(keys, lists, fresh_by_id_text(fresh))[i],
                #[trigger] keys[a],
                #[trigger] lists[a][b],
                fresh,
            ),
    decreases keys.len(),
{
    if keys.len() > 0 && lists.len() == keys.len() {
        let rk = keys.drop_last();
        let rl = lists.drop_last();
        lemma_plan_records_creates_by_members(rk, rl, fresh);
        let m = fresh_by_id_text(fresh);
        let before = completed_changes(rk, rl, m);
        let lp = keys.last();
        let ops = lists.last();
        lemma_ops_changes_backed(lp, ops, fresh);
        let tail = ops_changes(lp, ops, m);
        let all = completed_changes(keys, lists, m);
        assert forall|i: int| 0 <= i < all.len() && (#[trigger] all[i]) is CreatePartition implies exists|a: int, b: int|
            0 <= a < keys.len() && a < lists.len() && 0 <= b < lists[a].len() && records_create_of(
                all[i],
                #[trigger] keys[a],
                #[trigger] lists[a][b],
                fresh,
            ) by {
            if i < before.len() {
                assert(all[i] == before[i]);
                let (a, b) = choose|a: int, b: int|
                    0 <= a < rk.len() && a < rl.len() && 0 <= b < rl[a].len() && records_create_of(
                        before[i],
                        #[trigger] rk[a],
                        #[trigger] rl[a][b],
                        fresh,
                    );
                assert(keys[a] == rk[a] && lists[a] == rl[a]);
            } else {
                assert(all[i] == tail[i - before.len()]);
                let b = choose|b: int| 0 <= b < ops.len() && records_create_of(tail[i - before.len()], lp, #[trigger] ops[b], fresh);
                let a = keys.len() - 1;
                assert(keys[a] == lp && lists[a] == ops);
                assert(lists[a][b] == ops[b]);
            }
        }
    }
}

/// The database id a removal of `op` deletes.
pub open spec fn removed_db_id(op: OpView) -> u128 {
    match op.db_partition_id {
        Some(d) => d,
        None => 0,
    }
}

proof fn lemma_ops_changes_deletes(lp: u128, ops: Seq<OpView>, fresh: KeyedView<u64, PartitionInfoView>)
    ensures
        forall|i: int| 0 <= i < ops_changes(lp, ops, fresh).len() && (#[trigger] ops_changes(lp, ops, fresh)[i]) is DeletePartition
            ==> exists|b: int| 0 <= b < ops.len() && (#[trigger] ops[b]).operation_type is Remove && ops_changes(
            lp,
            ops,
            fresh,
        )[i] == (DbChangeView::DeletePartition { id: removed_db_id(ops[b]) }),
        forall|b: int| 0 <= b < ops.len() && (#[trigger] ops[b]).operation_type is Remove ==> ops_changes(lp, ops, fresh).contains(
            DbChangeView::DeletePartition { id: removed_db_id(ops[b]) },
        ),
        forall|i: int| 0 <= i < ops_changes(lp, ops, fresh).len() ==> !((#[trigger] ops_changes(lp, ops, fresh)[i]) is DeleteLogicalPartition),
    decreases ops.len(),
{
    if ops.len() > 0 {
        let rest = ops.drop_last();
        lemma_ops_changes_deletes(lp, rest, fresh);
        let a = ops_changes(lp, rest, fresh);
        let op = ops.last();
        let last = op_changes(lp, op, fresh);
        let all = ops_changes(lp, ops, fresh);
        assert(all == a + last);
        assert forall|i: int| 0 <= i < all.len() && (#[trigger] all[i]) is DeletePartition implies exists|b: int|
            0 <= b < ops.len() && (#[trigger] ops[b]).operation_type is Remove && all[i] == (DbChangeView::DeletePartition {
                id: removed_db_id(ops[b]),
            }) by {
            if i < a.len() {
                assert(all[i] == a[i]);
                let b = choose|b: int| 0 <= b < rest.len() && (#[trigger] rest[b]).operation_type is Remove && a[i] == (
                DbChangeView::DeletePartition { id: removed_db_id(rest[b]) });
                assert(ops[b] == rest[b]);
            } else {
                assert(all[i] == last[i - a.len()]);
                assert(ops[ops.len() - 1] == op);
            }
        }
        assert forall|b: int| 0 <= b < ops.len() && (#[trigger] ops[b]).operation_type is Remove implies all.contains(
            DbChangeView::DeletePartition { id: removed_db_id(ops[b]) },
        ) by {
            let c = DbChangeView::DeletePartition { id: removed_db_id(ops[b]) };
            if b < rest.len() {
                assert(rest[b] == ops[b]);
                let i = choose|i: int| 0 <= i < a.len() && a[i] == c;
                assert(all[i] == a[i]);
            } else {
                assert(ops[b] == op);
                assert(last[0] == c);
                assert(all[a.len() as int] == c);
            }
        }
        assert forall|i: int| 0 <= i < all.len() implies !((#[trigger] all[i]) is DeleteLogicalPartition) by {
            if i < a.len() {
                assert(all[i] == a[i]);
            } else {
                assert(all[i] == last[i - a.len()]);
            }
        }
    }
}

/// Law: the partition records the database update deletes are exactly
/// those of the completed removals: each deleted record is the record of a
/// completed removal, and each completed removal's record is deleted; the
/// completed operations never delete a logical partition.
pub proof fn lemma_plan_deletes_removed_records(keys: Seq<u128>, lists: Seq<Seq<OpView>>, fresh: KeyedView<u64, PartitionInfoView>)
    requires
        keys.len() == lists.len(),
    ensures
        forall|i: int| 0 <= i < completed_changes(keys, lists, fresh).len() && (#[trigger] completed_changes(
            keys,
            lists,
            fresh,
        )[i]) is DeletePartition ==> exists|a: int, b: int|
            0 <= a < lists.len() && 0 <= b < lists[a].len() && (#[trigger] lists[a][b]).operation_type is Remove
                && completed_changes(keys, lists, fresh)[i] == (DbChangeView::DeletePartition {
                id: removed_db_id(lists[a][b]),
            }),
        forall|a: int, b: int|
            0 <= a < lists.len() && 0 <= b < lists[a].len() && (#[trigger] lists[a][b]).operation_type is Remove
                ==> completed_changes(keys, lists, fresh).contains(DbChangeView::DeletePartition { id: removed_db_id(lists[a][b]) }),
        forall|i: int| 0 <= i < completed_changes(keys, lists, fresh).len() ==> !((#[trigger] completed_changes(
            keys,
            lists,
            fresh,
        )[i]) is DeleteLogicalPartition),
    decreases keys.len(),
{
    if keys.len() > 0 {
        let rk = keys.drop_last();
        let rl = lists.drop_last();
        lemma_plan_deletes_removed_records(rk, rl, fresh);
        let before = completed_changes(rk, rl, fresh);
        let ops = lists.last();
        lemma_ops_changes_deletes(keys.last(), ops, fresh);
        let tail = ops_changes(keys.last(), ops, fresh);
        let all = completed_changes(keys, lists, fresh);
        assert(all == before + tail);
        assert forall|i: int| 0 <= i < all.len() && (#[trigger] all[i]) is DeletePartition implies exists|a: int, b: int|
            0 <= a < lists.len() && 0 <= b < lists[a].len() && (#[trigger] lists[a][b]).operation_type is Remove
                && all[i] == (DbChangeView::DeletePartition { id: removed_db_id(lists[a][b]) }) by {
            if i < before.len() {
                assert(all[i] == before[i]);
                let (a, b) = choose|a: int, b: int|
                    0 <= a < rl.len() && 0 <= b < rl[a].len() && (#[trigger] rl[a][b]).operation_type is Remove && before[i]
                        == (DbChangeView::DeletePartition { id: removed_db_id(rl[a][b]) });
                assert(lists[a] == rl[a]);
            } else {
                assert(all[i] == tail[i - before.len()]);
                let b = choose|b: int| 0 <= b < ops.len() && (#[trigger] ops[b]).operation_type is Remove && tail[i - before.len()]
                    == (DbChangeView::DeletePartition { id: removed_db_id(ops[b]) });
                assert(lists[lists.len() - 1] == ops);
                assert(lists[lists.len() - 1][b] == ops[b]);
            }
        }
        assert forall|a: int, b: int|
            0 <= a < lists.len() && 0 <= b < lists[a].len() && (#[trigger] lists[a][b]).operation_type is Remove implies all.contains(
            DbChangeView::DeletePartition { id: removed_db_id(lists[a][b]) },
        ) by {
            let c = DbChangeView::DeletePartition { id: removed_db_id(lists[a][b]) };
            if a < rl.len() {
                assert(rl[a] == lists[a]);
                assert(rl[a][b] == lists[a][b]);
                let i = choose|i: int| 0 <= i < before.len() && before[i] == c;
                assert(all[i] == before[i]);
            } else {
                assert(lists[a] == ops);
                assert(ops[b] == lists[a][b]);
                let i = choose|i: int| 0 <= i < tail.len() && tail[i] == c;
                assert(all[before.len() + i] == tail[i]);
            }
        }
        assert forall|i: int| 0 <= i < all.len() implies !((#[trigger] all[i]) is DeleteLogicalPartition) by {
            if i < before.len() {
                assert(all[i] == before[i]);
            } else {
                assert(all[i] == tail[i - before.len()]);
            }
        }
    }
}

/// Law: the logical partitions the database update deletes are exactly
/// those marked as deleted.
pub proof fn lemma_logical_deletions_exactly_marked(lps: Seq<LogicalPartition>)
    ensures
        forall|i: int| 0 <= i < logical_deletions(lps).len() ==> ((#[trigger] logical_deletions(lps)[i]) matches DbChangeView::DeleteLogicalPartition { id }
            && exists|k: int| 0 <= k < lps.len() && (#[trigger] lps[k]).id == id && lps[k].marked_as_deleted),
        forall|k: int| 0 <= k < lps.len() && (#[trigger] lps[k]).marked_as_deleted ==> logical_deletions(lps).contains(
            DbChangeView::DeleteLogicalPartition { id: lps[k].id },
        ),
    decreases lps.len(),
{
    if lps.len() > 0 {
        let rest = lps.drop_last();
        lemma_logical_deletions_exactly_marked(rest);
        let a = logical_deletions(rest);
        let all = logical_deletions(lps);
        assert forall|i: int| 0 <= i < all.len() implies ((#[trigger] all[i]) matches DbChangeView::DeleteLogicalPartition { id }
            && exists|k: int| 0 <= k < lps.len() && (#[trigger] lps[k]).id == id && lps[k].marked_as_deleted) by {
            if i < a.len() {
                assert(all[i] == a[i]);
                let id = a[i]->DeleteLogicalPartition_id;
                let k = choose|k: int| 0 <= k < rest.len() && (#[trigger] rest[k]).id == id && rest[k].marked_as_deleted;
                assert(lps[k] == rest[k]);
            } else {
                assert(lps[lps.len() - 1] == lps.last());
            }
        }
        assert forall|k: int| 0 <= k < lps.len() && (#[trigger] lps[k]).marked_as_deleted implies all.contains(
            DbChangeView::DeleteLogicalPartition { id: lps[k].id },
        ) by {
            let c = DbChangeView::DeleteLogicalPartition { id: lps[k].id };
            if k < rest.len() {
                assert(rest[k] == lps[k]);
                let i = choose|i: int| 0 <= i < a.len() && a[i] == c;
                assert(all[i] == a[i]);
            } else {
                assert(all[a.len() as int] == c);
            }
        }
    }
}

pub open spec fn same_members(a: Seq<u64>) -> spec_fn(PartitionInfoView) -> bool {
    |p: PartitionInfoView| p.gpu_uid_list.to_set() == a.to_set()
}

/// The database changes for one completed operation of logical partition `lp`.
pub open spec fn op_changes(lp: u128, op: OpView, fresh: KeyedView<u64, PartitionInfoView>) -> Seq<DbChangeView> {
    match op.operation_type {
        NmxcPartitionOperationType::Create => match find_first(fresh.vals, same_members(op.gpu_uids)) {
            Some(i) => seq![
                DbChangeView::CreatePartition {
                    logical_partition_id: lp,
                    name: op.name,
                    domain_uuid: match op.domain_uuid {
                        Some(d) => d,
                        None => 0,
                    },
                    nmx_m_id: partition_id_text(fresh.vals[i]),
                },
            ],
            None => Seq::empty(),
        },
        NmxcPartitionOperationType::Remove(_) => seq![
            DbChangeView::DeletePartition {
                id: match op.db_partition_id {
                    Some(d) => d,
                    None => 0,
                },
            },
        ],
        _ => Seq::empty(),
    }
}

pub open spec fn ops_changes(lp: u128, ops: Seq<OpView>, fresh: KeyedView<u64, PartitionInfoView>) -> Seq<DbChangeView>
    decreases ops.len(),
{
    if ops.len() == 0 {
        Seq::empty()
    } else {
        ops_changes(lp, ops.drop_last(), fresh) + op_changes(lp, ops.last(), fresh)
    }
}

pub open spec fn completed_changes(
    lps: Seq<u128>,
    lists: Seq<Seq<OpView>>,
    fresh: KeyedView<u64, PartitionInfoView>,
) -> Seq<DbChangeView>
    decreases lps.len(),
{
    if lps.len() == 0 || lists.len() != lps.len() {
        Seq::empty()
    } else {
        completed_changes(lps.drop_last(), lists.drop_last(), fresh) + ops_changes(lps.last(), lists.last(), fresh)
    }
}

pub open spec fn logical_deletions(lps: Seq<LogicalPartition>) -> Seq<DbChangeView>
    decreases lps.len(),
{
    if lps.len() == 0 {
        Seq::empty()
    } else {
        logical_deletions(lps.drop_last()) + if lps.last().marked_as_deleted {
            seq![DbChangeView::DeleteLogicalPartition { id: lps.last().id }]
        } else {
            Seq::empty()
        }
    }
}

/// Whether `a` and `b` hold the same members.
pub fn same_member_set(a: &Vec<u64>, b: &Vec<u64>) -> (r: bool)
    ensures
        r == (a@.to_set() == b@.to_set()),
{
    let mut i: usize = 0;
    while i < a.len()
        invariant
            i <= a@.len(),
            forall|j: int| 0 <= j < i ==> b@.contains(#[trigger] a@[j]),
        decreases a@.len() - i,
    {
        if !contains_u64(b, a[i]) {
            assert(a@.to_set().contains(a@[i as int]));
            return false;
        }
        i = i + 1;
    }
    let mut k: usize = 0;
    while k < b.len()
        invariant
            k <= b@.len(),
            forall|j: int| 0 <= j < a@.len() ==> b@.contains(#[trigger] a@[j]),
            forall|j: int| 0 <= j < k ==> a@.contains(#[trigger] b@[j]),
        decreases b@.len() - k,
    {
        if !contains_u64(a, b[k]) {
            assert(b@.to_set().contains(b@[k as int]));
            return false;
        }
        k = k + 1;
    }
    assert(a@.to_set() =~= b@.to_set());
    true
}

fn push_changes(out: &mut Vec<DbChange>, lp: u128, op: &NmxcPartitionOperation, fresh: &KeyedVec<u64, PartitionInfo>)
    requires
        fresh.wf(),
    ensures
        final(out).deep_view() == old(out).deep_view() + op_changes(lp, op@, fresh.view()),
{
    let ghost start = out.deep_view();
    match op.operation_type {
        NmxcPartitionOperationType::Create => {
            let ghost vals = fresh.view().vals;
            let n = fresh.len();
            let mut i: usize = 0;
            while i < n
                invariant
                    fresh.wf(),
                    n == fresh.view().len(),
                    vals == fresh.view().vals,
                    out.deep_view() == start,
                    start == old(out).deep_view(),
                    op.operation_type == NmxcPartitionOperationType::Create,
                    i <= n,
                    forall|j: int| 0 <= j < i ==> !(#[trigger] same_members(op.gpu_uids@)(vals[j])),
                decreases n - i,
            {
                let p = fresh.value_at(i);
                if same_member_set(&p.gpu_uid_list, &op.gpu_uids) {
                    proof {
                        lemma_find_first_is(vals, same_members(op.gpu_uids@), i as int);
                    }
                    let change = DbChange::CreatePartition {
                        logical_partition_id: lp,
                        name: op.name.clone(),
                        domain_uuid: match op.domain_uuid {
                            Some(d) => d,
                            None => 0,
                        },
                        nmx_m_id: nmx_c_partition_id_string(p),
                    };
                    assert(vals[i as int] == p@);
                    assert(find_first(vals, same_members(op.gpu_uids@)) == Some(i as int));
                    assert(change@ == DbChangeView::CreatePartition {
                        logical_partition_id: lp,
                        name: op@.name,
                        domain_uuid: match op@.domain_uuid {
                            Some(d) => d,
                            None => 0,
                        },
                        nmx_m_id: partition_id_text(fresh.view().vals[i as int]),
                    });
                    assert(op@.operation_type == NmxcPartitionOperationType::Create);
                    assert(op_changes(lp, op@, fresh.view()) =~= seq![change@]);
                    out.push(change);
                    assert(out.deep_view() =~= start + op_changes(lp, op@, fresh.view()));
                    return;
                }
                i = i + 1;
            }
            proof {
                lemma_find_first_none(vals, same_members(op.gpu_uids@));
            }
            assert(out.deep_view() =~= start + op_changes(lp, op@, fresh.view()));
        },
        NmxcPartitionOperationType::Remove(_) => {
            let id = match op.db_partition_id {
                Some(d) => d,
                None => 0,
            };
            out.push(DbChange::DeletePartition { id });
            assert(out.deep_view() =~= start + op_changes(lp, op@, fresh.view()));
        },
        _ => {
            assert(out.deep_view() =~= start + op_changes(lp, op@, fresh.view()));
        },
    }
}

/// Index the fresh NMX-C partitions by id text.
pub fn index_by_id_text(list: &Vec<PartitionInfo>) -> (m: KeyedVec<u64, PartitionInfo>)
    ensures
        m.wf(),
        m.view() == fresh_by_id_text(list.deep_view()),
{
    let ghost dv = list.deep_view();
    let mut m: KeyedVec<u64, PartitionInfo> = KeyedVec::new();
    let mut i: usize = 0;
    while i < list.len()
        invariant
            i <= list@.len(),
            dv == list.deep_view(),
            m.wf(),
            m.view() == fresh_by_id_text(dv.take(i as int)),
        decreases list@.len() - i,
    {
        let p = &list[i];
        let key: u64 = match p.partition_id {
            Some(id) => id.partition_id as u64 + 1,
            None => 0,
        };
        m.insert(key, p.duplicate());
        proof {
            let t = dv.take(i + 1);
            assert(t.drop_last() =~= dv.take(i as int));
        }
        i = i + 1;
    }
    assert(dv.take(i as int) =~= dv);
    m
}

/// The database changes after NMX-C carried out `completed`: record each
/// created partition under the NMX-C id of the fresh partition with the
/// same members (none when no such partition is found), delete the record
/// of each removed partition, then delete every logical partition marked as
/// deleted.
pub fn plan_db_updates(
    completed: &KeyedVec<u128, Vec<NmxcPartitionOperation>>,
    db_nvl_logical_partitions: &Vec<LogicalPartition>,
    fresh_partitions: &Vec<PartitionInfo>,
) -> (r: Vec<DbChange>)
    requires
        completed.wf(),
    ensures
        r.deep_view() == completed_changes(
            completed.view().keys,
            completed.view().vals,
            fresh_by_id_text(fresh_partitions.deep_view()),
        ) + logical_deletions(db_nvl_logical_partitions@),
{
    let fresh = index_by_id_text(fresh_partitions);
    let ghost fv = fresh.view();
    let ghost keys = completed.view().keys;
    let ghost lists = completed.view().vals;
    let mut out: Vec<DbChange> = Vec::new();
    let n = completed.len();
    let mut i: usize = 0;
    assert(out.deep_view() =~= completed_changes(keys.take(0), lists.take(0), fv));
    while i < n
        invariant
            completed.wf(),
            fresh.wf(),
            fv == fresh.view(),
            keys == completed.view().keys,
            lists == completed.view().vals,
            n == keys.len(),
            n == lists.len(),
            i <= n,
            out.deep_view() == completed_changes(keys.take(i as int), lists.take(i as int), fv),
        decreases n - i,
    {
        let lp = completed.key_at(i);
        let ops = completed.value_at(i);
        let ghost base = out.deep_view();
        let mut j: usize = 0;
        assert(ops.deep_view().take(0) =~= Seq::<OpView>::empty());
        while j < ops.len()
            invariant
                fresh.wf(),
                fv == fresh.view(),
                j <= ops@.len(),
                out.deep_view() == base + ops_changes(lp, ops.deep_view().take(j as int), fv),
            decreases ops@.len() - j,
        {
            push_changes(&mut out, lp, &ops[j], &fresh);
            proof {
                let t = ops.deep_view().take(j + 1);
                assert(t.drop_last() =~= ops.deep_view().take(j as int));
                assert(t.last() == ops[j as int]@);
                assert(out.deep_view() =~= base + ops_changes(lp, t, fv));
            }
            j = j + 1;
        }
        proof {
            assert(ops.deep_view().take(j as int) =~= ops.deep_view());
            assert(keys.take(i + 1).drop_last() =~= keys.take(i as int));
            assert(lists.take(i + 1).drop_last() =~= lists.take(i as int));
            assert(out.deep_view() =~= completed_changes(keys.take(i + 1), lists.take(i + 1), fv));
        }
        i = i + 1;
    }
    assert(keys.take(i as int) =~= keys);
    assert(lists.take(i as int) =~= lists);
    let ghost mid = out.deep_view();
    let mut k: usize = 0;
    assert(mid + logical_deletions(db_nvl_logical_partitions@.take(0)) =~= mid);
    while k < db_nvl_logical_partitions.len()
        invariant
            k <= db_nvl_logical_partitions@.len(),
            out.deep_view() == mid + logical_deletions(db_nvl_logical_partitions@.take(k as int)),
        decreases db_nvl_logical_partitions@.len() - k,
    {
        let lp = db_nvl_logical_partitions[k];
        let ghost before = out.deep_view();
        if lp.marked_as_deleted {
            out.push(DbChange::DeleteLogicalPartition { id: lp.id });
            assert(out.deep_view() =~= before.push(DbChangeView::DeleteLogicalPartition { id: lp.id }));
        }
        proof {
            let t = db_nvl_logical_partitions@.take(k + 1);
            assert(t.drop_last() =~= db_nvl_logical_partitions@.take(k as int));
            assert(t.last() == lp);
            assert(out.deep_view() =~= mid + logical_deletions(t));
        }
        k = k + 1;
    }
    assert(db_nvl_logical_partitions@.take(k as int) =~= db_nvl_logical_partitions@);
    out
}

} // verus!
