//! Browsing an NVLink domain through NMX-C on behalf of an operator: request
//! validation, the query that an operation asks for, the records extracted
//! from NMX-C's answers, and how outcomes map to a browse response.

use vstd::prelude::*;
use crate::iteration::NvlinkNmxcEndpoint;
use crate::nmxc::{Context, NMX_C_GATEWAY_ID, NmxcError, status_text};
use crate::text::{decimal_text, trim, trim_text, u64_text};

verus! {

/// The context the browse handler sends: an empty one.
pub fn nmxc_context() -> (c: Context)
    ensures
        c.context@ == Seq::<char>::empty(),
{
    Context { context: String::new() }
}

/// Errors of the browse handler.
pub enum CarbideError {
    MissingArgument(String),
    InvalidArgument(String),
    NotFoundError { kind: String, id: String },
    Internal(String),
}

/// The operations an operator may ask of NMX-C.
#[derive(Clone, Copy, PartialEq, Eq, Structural, Debug)]
pub enum NmxcBrowseOperation {
    Unspecified,
    ComputeNodeInfoList,
    GpuInfo,
    GpuInfoList,
}

/// The operation a request names: an operation number the service does not
/// know (`None`) counts as unspecified.
pub fn operation_or_unspecified(op: Option<NmxcBrowseOperation>) -> (r: NmxcBrowseOperation)
    ensures
        r == match op {
            Some(o) => o,
            None => NmxcBrowseOperation::Unspecified,
        },
{
    match op {
        Some(o) => o,
        None => NmxcBrowseOperation::Unspecified,
    }
}

/// The NMX-C query that a valid browse request runs.
#[derive(Clone, Copy, PartialEq, Eq, Structural, Debug)]
pub enum BrowseQuery {
    ComputeNodeInfoList,
    GpuInfo(u64),
    GpuInfoList,
}

pub open spec fn nvlink_disabled_text() -> Seq<char> {
    "nvlink config not enabled"@
}

/// Validate the request: the chassis serial is trimmed and must not be
/// empty; then NVLink must be enabled. Answers the trimmed serial.
pub fn browse_chassis_serial(chassis_serial: &str, nvlink_enabled: bool) -> (r: Result<String, CarbideError>)
    ensures
        trim_text(chassis_serial@).len() == 0 ==> (r matches Err(CarbideError::MissingArgument(a)) && a@ == "chassis_serial"@),
        trim_text(chassis_serial@).len() > 0 && !nvlink_enabled ==> (r matches Err(CarbideError::Internal(m)) && m@
            == nvlink_disabled_text()),
        trim_text(chassis_serial@).len() > 0 && nvlink_enabled ==> (r matches Ok(s) && s@ == trim_text(chassis_serial@)),
{
    let s = trim(chassis_serial);
    if s.as_str().unicode_len() == 0 {
        return Err(CarbideError::MissingArgument(String::from_str("chassis_serial")));
    }
    if !nvlink_enabled {
        return Err(CarbideError::Internal(String::from_str("nvlink config not enabled")));
    }
    Ok(s)
}

/// The endpoint to browse: the URL of the row found for the chassis, or
/// `NotFoundError` of kind "nvlink_nmxc_endpoint" naming the chassis.
pub fn browse_endpoint(chassis_serial: &str, row: Option<NvlinkNmxcEndpoint>) -> (r: Result<String, CarbideError>)
    ensures
        row matches Some(e) ==> (r matches Ok(u) && u@ == e.endpoint@),
        row is None ==> (r matches Err(CarbideError::NotFoundError { kind, id }) && kind@ == "nvlink_nmxc_endpoint"@
            && id@ == chassis_serial@),
{
    match row {
        Some(e) => Ok(e.endpoint),
        None => Err(
            CarbideError::NotFoundError {
                kind: String::from_str("nvlink_nmxc_endpoint"),
                id: String::from_str(chassis_serial),
            },
        ),
    }
}

/// The error answered when no NMX-C client could be made, carrying the
/// client error's text.
pub fn connect_failure(detail: &str) -> (e: CarbideError)
    ensures
        e matches CarbideError::Internal(m) && m@ == "Failed to connect to NMX-C: "@ + detail@,
{
    CarbideError::Internal(String::from_str("Failed to connect to NMX-C: ").concat(detail))
}

/// The error answered when an NMX-C query fails: a gRPC status by its own
/// text, any other client error by its message.
pub fn map_nmxc_err(e: &NmxcError) -> (r: CarbideError)
    ensures
        r is Internal,
        *e matches NmxcError::InvalidEndpoint(u) ==> (r matches CarbideError::Internal(m) && m@ == "Invalid endpoint URL: "@ + u@),
        *e is Uninitialized ==> (r matches CarbideError::Internal(m) && m@ == "Connection not initialized"@),
        *e matches NmxcError::Transport(t) ==> (r matches CarbideError::Internal(m) && m@ == "Transport error: "@
            + crate::nmxc::transport_display(t)),
        *e matches NmxcError::Status(st) ==> (r matches CarbideError::Internal(m) && m@ == crate::nmxc::status_display(st)),
{
    match e {
        NmxcError::Status(s) => CarbideError::Internal(status_text(s)),
        _ => CarbideError::Internal(e.message()),
    }
}

pub open spec fn unspecified_operation_text() -> Seq<char> {
    "operation must be set to a supported NmxcBrowseOperation"@
}

pub open spec fn missing_gpu_uid_text() -> Seq<char> {
    "gpu_uid is required for GPU_INFO operation"@
}

/// The query an operation runs: an unspecified operation, and a GPU query
/// without a GPU UID (zero), are invalid arguments.
pub fn browse_query(operation: NmxcBrowseOperation, gpu_uid: u64) -> (r: Result<BrowseQuery, CarbideError>)
    ensures
        operation == NmxcBrowseOperation::Unspecified ==> (r matches Err(CarbideError::InvalidArgument(m)) && m@
            == unspecified_operation_text()),
        operation == NmxcBrowseOperation::ComputeNodeInfoList ==> r == Ok::<BrowseQuery, CarbideError>(BrowseQuery::ComputeNodeInfoList),
        operation == NmxcBrowseOperation::GpuInfoList ==> r == Ok::<BrowseQuery, CarbideError>(BrowseQuery::GpuInfoList),
        operation == NmxcBrowseOperation::GpuInfo && gpu_uid == 0 ==> (r matches Err(CarbideError::InvalidArgument(m)) && m@
            == missing_gpu_uid_text()),
        operation == NmxcBrowseOperation::GpuInfo && gpu_uid != 0 ==> r == Ok::<BrowseQuery, CarbideError>(BrowseQuery::GpuInfo(gpu_uid)),
{
    match operation {
        NmxcBrowseOperation::Unspecified => Err(
            CarbideError::InvalidArgument(String::from_str("operation must be set to a supported NmxcBrowseOperation")),
        ),
        NmxcBrowseOperation::ComputeNodeInfoList => Ok(BrowseQuery::ComputeNodeInfoList),
        NmxcBrowseOperation::GpuInfo => if gpu_uid == 0 {
            Err(CarbideError::InvalidArgument(String::from_str("gpu_uid is required for GPU_INFO operation")))
        } else {
            Ok(BrowseQuery::GpuInfo(gpu_uid))
        },
        NmxcBrowseOperation::GpuInfoList => Ok(BrowseQuery::GpuInfoList),
    }
}

/// A location in the domain as NMX-C reports it.
#[derive(Clone, Copy, PartialEq, Eq, Structural, Debug)]
pub struct Location {
    pub chassis_id: u32,
    pub slot_id: u32,
    pub host_id: u32,
}

/// Where a GPU or compute node sits.
pub struct LocationInfo {
    pub chassis_serial_number: String,
    pub tray_index: u32,
    pub location: Option<Location>,
}

/// A GPU as NMX-C reports it.
pub struct GpuInfo {
    pub gpu_uid: u64,
    pub gpu_id: u32,
    pub loc: Option<LocationInfo>,
}

/// The tray index and slot of a GPU: zero where NMX-C gives no location.
pub open spec fn tray_and_slot(loc: Option<LocationInfo>) -> (int, int) {
    match loc {
        Some(l) => (l.tray_index as int, match l.location {
            Some(x) => x.slot_id as int,
            None => 0,
        }),
        None => (0, 0),
    }
}

pub fn gpu_tray_and_slot(loc: &Option<LocationInfo>) -> (r: (i64, i64))
    ensures
        r.0 == tray_and_slot(*loc).0,
        r.1 == tray_and_slot(*loc).1,
{
    match loc {
        Some(l) => {
            let slot: i64 = match l.location {
                Some(x) => x.slot_id as i64,
                None => 0,
            };
            (l.tray_index as i64, slot)
        },
        None => (0, 0),
    }
}

/// What the browse answer shows of one GPU.
pub struct GpuRecord {
    pub id: String,
    pub device_id: i64,
    pub device_uid: u64,
    pub tray_index: i64,
    pub slot_id: i64,
}

pub open spec fn record_of(r: GpuRecord, g: GpuInfo) -> bool {
    &&& r.id@ == decimal_text(g.gpu_uid as nat)
    &&& r.device_id == g.gpu_id as int
    &&& r.device_uid == g.gpu_uid
    &&& r.tray_index == tray_and_slot(g.loc).0
    &&& r.slot_id == tray_and_slot(g.loc).1
}

pub fn gpu_record(g: &GpuInfo) -> (r: GpuRecord)
    ensures
        record_of(r, *g),
{
    let (tray, slot) = gpu_tray_and_slot(&g.loc);
    GpuRecord { id: u64_text(g.gpu_uid), device_id: g.gpu_id as i64, device_uid: g.gpu_uid, tray_index: tray, slot_id: slot }
}

/// The records of all GPUs, in NMX-C's order.
pub fn gpu_records(gpus: &Vec<GpuInfo>) -> (r: Vec<GpuRecord>)
    ensures
        r@.len() == gpus@.len(),
        forall|i: int| 0 <= i < r@.len() ==> record_of(#[trigger] r@[i], gpus@[i]),
{
    let mut r: Vec<GpuRecord> = Vec::new();
    let mut i: usize = 0;
    while i < gpus.len()
        invariant
            i <= gpus@.len(),
            r@.len() == i,
            forall|k: int| 0 <= k < i ==> record_of(#[trigger] r@[k], gpus@[k]),
        decreases gpus@.len() - i,
    {
        r.push(gpu_record(&gpus[i]));
        i = i + 1;
    }
    r
}

/// The first GPU with UID `uid`, or `NotFoundError` of kind "nmxc_gpu"
/// naming the UID.
pub fn find_gpu(gpus: &Vec<GpuInfo>, uid: u64) -> (r: Result<GpuRecord, CarbideError>)
    ensures
        (exists|i: int| 0 <= i < gpus@.len() && gpus@[i].gpu_uid == uid) <==> r is Ok,
        r matches Ok(rec) ==> exists|i: int|
            0 <= i < gpus@.len() && gpus@[i].gpu_uid == uid && record_of(rec, gpus@[i]) && forall|j: int|
                0 <= j < i ==> gpus@[j].gpu_uid != uid,
        r matches Err(e) ==> (e matches CarbideError::NotFoundError { kind, id } && kind@ == "nmxc_gpu"@ && id@
            == decimal_text(uid as nat)),
{
    let mut i: usize = 0;
    while i < gpus.len()
        invariant
            i <= gpus@.len(),
            forall|j: int| 0 <= j < i ==> gpus@[j].gpu_uid != uid,
        decreases gpus@.len() - i,
    {
        if gpus[i].gpu_uid == uid {
            return Ok(gpu_record(&gpus[i]));
        }
        i = i + 1;
    }
    Err(CarbideError::NotFoundError { kind: String::from_str("nmxc_gpu"), id: u64_text(uid) })
}

/// The domain UUID from a response header, empty when there is none.
pub fn domain_uuid_of(header_domain_uuid: &Option<String>) -> (r: String)
    ensures
        r@ == match *header_domain_uuid {
            Some(d) => d@,
            None => Seq::<char>::empty(),
        },
{
    match header_domain_uuid {
        Some(d) => d.clone(),
        None => String::new(),
    }
}

/// A compute node as NMX-C reports it.
pub struct ComputeNodeInfo {
    pub loc: Option<LocationInfo>,
}

/// The nodes that are listed: those with a location, in NMX-C's order.
pub open spec fn listed_nodes(nodes: Seq<ComputeNodeInfo>) -> Seq<int>
    decreases nodes.len(),
{
    if nodes.len() == 0 {
        Seq::empty()
    } else {
        let rest = listed_nodes(nodes.drop_last());
        if nodes.last().loc is Some {
            rest.push(nodes.len() - 1)
        } else {
            rest
        }
    }
}

/// The positions of the nodes that are listed.
pub fn listed_node_positions(nodes: &Vec<ComputeNodeInfo>) -> (r: Vec<usize>)
    ensures
        r@.map_values(|p: usize| p as int) == listed_nodes(nodes@),
{
    let mut r: Vec<usize> = Vec::new();
    let mut i: usize = 0;
    while i < nodes.len()
        invariant
            i <= nodes@.len(),
            r@.map_values(|p: usize| p as int) == listed_nodes(nodes@.subrange(0, i as int)),
        decreases nodes@.len() - i,
    {
        proof {
            assert(nodes@.subrange(0, i as int + 1).drop_last() =~= nodes@.subrange(0, i as int));
        }
        if nodes[i].loc.is_some() {
            r.push(i);
            assert(r@.map_values(|p: usize| p as int) =~= listed_nodes(nodes@.subrange(0, i as int)).push(i as int));
        }
        i = i + 1;
    }
    assert(nodes@.subrange(0, nodes@.len() as int) =~= nodes@);
    r
}

/// What the browse answer shows of one compute node.
pub struct ComputeNodeRecord {
    pub chassis_serial_number: String,
    pub tray_index: i64,
    pub domain_uuid: String,
    pub gpu_ids: Vec<String>,
}

/// The record of a listed node, from its location, the domain and the UIDs
/// of the GPUs NMX-C reports at its location (none where the node's
/// location names no position).
pub fn compute_node_record(li: &LocationInfo, domain_uuid: &str, gpu_uids: &Vec<u64>) -> (r: ComputeNodeRecord)
    ensures
        r.chassis_serial_number@ == li.chassis_serial_number@,
        r.tray_index == li.tray_index as int,
        r.domain_uuid@ == domain_uuid@,
        r.gpu_ids@.len() == gpu_uids@.len(),
        forall|i: int| 0 <= i < gpu_uids@.len() ==> (#[trigger] r.gpu_ids@[i])@ == decimal_text(gpu_uids@[i] as nat),
{
    let mut ids: Vec<String> = Vec::new();
    let mut i: usize = 0;
    while i < gpu_uids.len()
        invariant
            i <= gpu_uids@.len(),
            ids@.len() == i,
            forall|k: int| 0 <= k < i ==> (#[trigger] ids@[k])@ == decimal_text(gpu_uids@[k] as nat),
        decreases gpu_uids@.len() - i,
    {
        ids.push(u64_text(gpu_uids[i]));
        i = i + 1;
    }
    ComputeNodeRecord {
        chassis_serial_number: li.chassis_serial_number.clone(),
        tray_index: li.tray_index as i64,
        domain_uuid: String::from_str(domain_uuid),
        gpu_ids: ids,
    }
}

/// The answer of a browse request.
pub struct NmxcBrowseResponse {
    pub body: String,
    pub code: i32,
    pub headers: Vec<(String, String)>,
}

/// How an operation's outcome is answered: a body with code 200; a missing
/// GPU as 404 "GPU not found: <id>"; an invalid argument as 400 with its
/// message; any other error stays an error. No answer carries headers.
pub fn browse_response(result: Result<String, CarbideError>) -> (r: Result<NmxcBrowseResponse, CarbideError>)
    ensures
        result matches Ok(body) ==> (r matches Ok(resp) && resp.body@ == body@ && resp.code == 200),
        result matches Err(CarbideError::NotFoundError { kind, id }) ==> (kind@ == "nmxc_gpu"@ <==> r is Ok),
        result matches Err(CarbideError::NotFoundError { kind, id }) ==> (kind@ == "nmxc_gpu"@ ==> (r matches Ok(resp)
            && resp.code == 404 && resp.body@ == "GPU not found: "@ + id@)),
        result matches Err(CarbideError::InvalidArgument(m)) ==> (r matches Ok(resp) && resp.code == 400 && resp.body@ == m@),
        result matches Err(CarbideError::MissingArgument(_)) ==> r is Err,
        result matches Err(CarbideError::Internal(_)) ==> r is Err,
        r matches Err(e) ==> result == Err::<String, CarbideError>(e),
        r matches Ok(resp) ==> resp.headers@.len() == 0,
{
    match result {
        Ok(body) => Ok(NmxcBrowseResponse { body, code: 200, headers: Vec::new() }),
        Err(CarbideError::NotFoundError { kind, id }) => {
            if crate::text::text_equal(kind.as_str(), "nmxc_gpu") {
                Ok(
                    NmxcBrowseResponse {
                        body: String::from_str("GPU not found: ").concat(id.as_str()),
                        code: 404,
                        headers: Vec::new(),
                    },
                )
            } else {
                Err(CarbideError::NotFoundError { kind, id })
            }
        },
        Err(CarbideError::InvalidArgument(m)) => Ok(NmxcBrowseResponse { body: m, code: 400, headers: Vec::new() }),
        Err(e) => Err(e),
    }
}

/// Which GPU attributes a GPU query asks NMX-C for.
#[derive(Clone, Copy, PartialEq, Eq, Structural, Debug)]
pub enum GpuAttr {
    All,
    Location,
}

/// A GPU query to NMX-C.
pub struct GetGpuInfoListRequest {
    pub context: Option<Context>,
    pub attr: GpuAttr,
    pub num_gpus: u32,
    pub loc: Option<Location>,
    pub partition_id: Option<u32>,
    pub gateway_id: String,
    pub gpu_health: i32,
}

/// `q` asks for the GPUs with attribute `attr` at `loc` (everywhere when
/// `None`), with an empty context, no count, partition or health filter,
/// from gateway "carbide".
pub open spec fn gpu_query(q: GetGpuInfoListRequest, attr: GpuAttr, loc: Option<Location>) -> bool {
    &&& q.context matches Some(c) && c.context@.len() == 0
    &&& q.attr == attr
    &&& q.num_gpus == 0
    &&& q.loc == loc
    &&& q.partition_id is None
    &&& q.gateway_id@ == NMX_C_GATEWAY_ID@
    &&& q.gpu_health == 0
}

fn gpu_request(attr: GpuAttr, loc: Option<Location>) -> (q: GetGpuInfoListRequest)
    ensures
        gpu_query(q, attr, loc),
{
    GetGpuInfoListRequest {
        context: Some(nmxc_context()),
        attr,
        num_gpus: 0,
        loc,
        partition_id: None,
        gateway_id: String::from_str(NMX_C_GATEWAY_ID),
        gpu_health: 0,
    }
}

/// The query for every GPU of the domain, as the GPU and GPU-list
/// operations send it.
pub fn gpu_info_list_request() -> (q: GetGpuInfoListRequest)
    ensures
        gpu_query(q, GpuAttr::All, None),
{
    gpu_request(GpuAttr::All, None)
}

/// A compute-node query to NMX-C.
pub struct GetComputeNodeInfoListRequest {
    pub context: Option<Context>,
    pub loc_list: Vec<Location>,
    pub gateway_id: String,
}

/// The query for every compute node of the domain: empty context, no
/// locations, gateway "carbide".
pub fn compute_node_info_list_request() -> (q: GetComputeNodeInfoListRequest)
    ensures
        q.context matches Some(c) && c.context@.len() == 0,
        q.loc_list@.len() == 0,
        q.gateway_id@ == NMX_C_GATEWAY_ID@,
{
    GetComputeNodeInfoListRequest {
        context: Some(nmxc_context()),
        loc_list: Vec::new(),
        gateway_id: String::from_str(NMX_C_GATEWAY_ID),
    }
}

/// The position a node's location names, if any.
pub open spec fn node_position(node: ComputeNodeInfo) -> Option<Location> {
    match node.loc {
        Some(li) => li.location,
        None => None,
    }
}

proof fn lemma_listed_nodes(nodes: Seq<ComputeNodeInfo>)
    ensures
        forall|i: int| 0 <= i < listed_nodes(nodes).len() ==> 0 <= #[trigger] listed_nodes(nodes)[i] < nodes.len()
            && nodes[listed_nodes(nodes)[i]].loc is Some,
    decreases nodes.len(),
{
    if nodes.len() > 0 {
        let rest = nodes.drop_last();
        lemma_listed_nodes(rest);
        assert forall|i: int| 0 <= i < listed_nodes(nodes).len() implies 0 <= #[trigger] listed_nodes(nodes)[i] < nodes.len()
            && nodes[listed_nodes(nodes)[i]].loc is Some by {
            if i < listed_nodes(rest).len() {
                assert(listed_nodes(nodes)[i] == listed_nodes(rest)[i]);
                assert(nodes[listed_nodes(rest)[i]] == rest[listed_nodes(rest)[i]]);
            }
        }
    }
}

/// The GPU query of each listed node, in order: one query at the node's
/// position, or none when its location names no position.
pub fn compute_node_gpu_requests(nodes: &Vec<ComputeNodeInfo>) -> (r: Vec<Option<GetGpuInfoListRequest>>)
    ensures
        r@.len() == listed_nodes(nodes@).len(),
        forall|i: int| 0 <= i < r@.len() ==> match node_position(nodes@[listed_nodes(nodes@)[i]]) {
            Some(l) => (#[trigger] r@[i]) matches Some(q) && gpu_query(q, GpuAttr::Location, Some(l)),
            None => r@[i] is None,
        },
{
    let positions = listed_node_positions(nodes);
    proof {
        lemma_listed_nodes(nodes@);
    }
    let ghost listed = listed_nodes(nodes@);
    let mut r: Vec<Option<GetGpuInfoListRequest>> = Vec::new();
    let mut i: usize = 0;
    while i < positions.len()
        invariant
            i <= positions@.len(),
            positions@.map_values(|p: usize| p as int) == listed,
            listed == listed_nodes(nodes@),
            forall|k: int| 0 <= k < listed.len() ==> 0 <= #[trigger] listed[k] < nodes@.len(),
            r@.len() == i,
            forall|k: int| 0 <= k < i ==> match node_position(nodes@[listed[k]]) {
                Some(l) => (#[trigger] r@[k]) matches Some(q) && gpu_query(q, GpuAttr::Location, Some(l)),
                None => r@[k] is None,
            },
        decreases positions@.len() - i,
    {
        let p = positions[i];
        assert(listed[i as int] == p as int);
        assert(p < nodes@.len());
        let q = match &nodes[p].loc {
            Some(li) => match li.location {
                Some(l) => Some(gpu_request(GpuAttr::Location, Some(l))),
                None => None,
            },
            None => None,
        };
        r.push(q);
        i = i + 1;
    }
    r
}

/// The records of the listed nodes, in order, given the GPU UIDs each
/// node's query answered: a node that was not queried (its location names
/// no position) lists no GPU.
pub fn compute_node_records(nodes: &Vec<ComputeNodeInfo>, domain_uuid: &str, answers: &Vec<Vec<u64>>) -> (r: Vec<ComputeNodeRecord>)
    requires
        answers@.len() == listed_nodes(nodes@).len(),
    ensures
        r@.len() == listed_nodes(nodes@).len(),
        forall|i: int| 0 <= i < r@.len() ==> {
            let li = nodes@[listed_nodes(nodes@)[i]].loc.unwrap();
            let uids = if li.location is Some { answers@[i]@ } else { Seq::<u64>::empty() };
            &&& (#[trigger] r@[i]).chassis_serial_number@ == li.chassis_serial_number@
            &&& r@[i].tray_index == li.tray_index as int
            &&& r@[i].domain_uuid@ == domain_uuid@
            &&& r@[i].gpu_ids@.len() == uids.len()
            &&& forall|j: int| 0 <= j < uids.len() ==> (#[trigger] r@[i].gpu_ids@[j])@ == decimal_text(uids[j] as nat)
        },
{
    let positions = listed_node_positions(nodes);
    proof {
        lemma_listed_nodes(nodes@);
    }
    let ghost listed = listed_nodes(nodes@);
    let none: Vec<u64> = Vec::new();
    let mut r: Vec<ComputeNodeRecord> = Vec::new();
    let mut i: usize = 0;
    while i < positions.len()
        invariant
            i <= positions@.len(),
            positions@.map_values(|p: usize| p as int) == listed,
            listed == listed_nodes(nodes@),
            answers@.len() == listed.len(),
            none@.len() == 0,
            forall|k: int| 0 <= k < listed.len() ==> 0 <= #[trigger] listed[k] < nodes@.len() && nodes@[listed[k]].loc is Some,
            r@.len() == i,
            forall|k: int| 0 <= k < i ==> {
                let li = nodes@[listed[k]].loc.unwrap();
                let uids = if li.location is Some { answers@[k]@ } else { Seq::<u64>::empty() };
                &&& (#[trigger] r@[k]).chassis_serial_number@ == li.chassis_serial_number@
                &&& r@[k].tray_index == li.tray_index as int
                &&& r@[k].domain_uuid@ == domain_uuid@
                &&& r@[k].gpu_ids@.len() == uids.len()
                &&& forall|j: int| 0 <= j < uids.len() ==> (#[trigger] r@[k].gpu_ids@[j])@ == decimal_text(uids[j] as nat)
            },
        decreases positions@.len() - i,
    {
        let p = positions[i];
        assert(listed[i as int] == p as int);
        match &nodes[p].loc {
            Some(li) => {
                let uids = if li.location.is_some() { &answers[i] } else { &none };
                let rec = compute_node_record(li, domain_uuid, uids);
                r.push(rec);
            },
            None => {
                assert(false);
            },
        }
        i = i + 1;
    }
    r
}

} // verus!
