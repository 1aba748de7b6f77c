//! The JSON bodies of NMX-C browse answers: compact JSON with the keys of
//! each object in sorted order, strings quoted as `serde_json` quotes them.

use vstd::prelude::*;
use crate::browse::{ComputeNodeRecord, GpuRecord};
use crate::text::decimal_text;

verus! {

/// The JSON text `serde_json` writes for string `s`: `s` in double quotes,
/// its quotes, backslashes and control characters escaped. It depends on
/// `s` alone.
pub uninterp spec fn json_quoted(s: Seq<char>) -> Seq<char>;

/// `serde_json::to_string` on a string slice, `json_quoted`. Writing a
/// string into the in-memory buffer `to_string` uses cannot fail, so the
/// error arm is never taken; what the quoting writes is not stated here.
#[verifier::external_body]
fn json_string(s: &str) -> (r: String)
    ensures
        r@ == json_quoted(s@),
{
    match serde_json::to_string(s) {
        Ok(t) => t,
        Err(_) => String::new(),
    }
}

/// The decimal text of integer `i`, with a leading minus when negative.
pub open spec fn int_text(i: int) -> Seq<char> {
    if i < 0 {
        seq!['-'] + decimal_text((-i) as nat)
    } else {
        decimal_text(i as nat)
    }
}

fn i64_text(n: i64) -> (s: String)
    ensures
        s@ == int_text(n as int),
{
    if n < 0 {
        let m: i128 = 0i128 - (n as i128);
        let minus = "-";
        proof {
            reveal_strlit("-");
        }
        String::from_str(minus).concat(crate::text::u64_text(m as u64).as_str())
    } else {
        crate::text::u64_text(n as u64)
    }
}

/// The texts `items` separated by commas.
pub open spec fn joined(items: Seq<Seq<char>>) -> Seq<char>
    decreases items.len(),
{
    if items.len() == 0 {
        Seq::empty()
    } else if items.len() == 1 {
        items[0]
    } else {
        joined(items.drop_last()) + ","@ + items.last()
    }
}

/// A JSON array of the values whose texts are `items`.
pub open spec fn json_array(items: Seq<Seq<char>>) -> Seq<char> {
    "["@ + joined(items) + "]"@
}

pub open spec fn texts_of(v: Seq<String>) -> Seq<Seq<char>> {
    v.map_values(|t: String| t@)
}

fn array_text(items: &Vec<String>) -> (s: String)
    ensures
        s@ == json_array(texts_of(items@)),
{
    let ghost all = texts_of(items@);
    let mut acc = String::new();
    let mut i: usize = 0;
    while i < items.len()
        invariant
            i <= items@.len(),
            all == texts_of(items@),
            acc@ == joined(all.take(i as int)),
        decreases items@.len() - i,
    {
        let ghost before = acc@;
        if i == 0 {
            acc = items[i].clone();
        } else {
            acc = acc.concat(",").concat(items[i].as_str());
        }
        proof {
            let t = all.take(i + 1);
            assert(t.drop_last() =~= all.take(i as int));
            assert(t.last() == items@[i as int]@);
            if i == 0 {
                assert(t.len() == 1);
            }
        }
        i = i + 1;
    }
    assert(all.take(i as int) =~= all);
    String::from_str("[").concat(acc.as_str()).concat("]")
}

/// The JSON object of a GPU location.
pub open spec fn location_json(tray_index: int, slot_id: int) -> Seq<char> {
    "{\"SlotID\":"@ + int_text(slot_id) + ",\"TrayIndex\":"@ + int_text(tray_index) + "}"@
}

/// The JSON object of a GPU record, with its `ID` when `with_id`.
pub open spec fn gpu_json(r: GpuRecord, with_id: bool) -> Seq<char> {
    "{\"DeviceID\":"@ + int_text(r.device_id as int) + ",\"DeviceUID\":"@ + decimal_text(r.device_uid as nat)
        + (if with_id {
        ",\"ID\":"@ + json_quoted(r.id@)
    } else {
        Seq::empty()
    }) + ",\"LocationInfo\":"@ + location_json(r.tray_index as int, r.slot_id as int) + "}"@
}

fn gpu_text(r: &GpuRecord, with_id: bool) -> (s: String)
    ensures
        s@ == gpu_json(*r, with_id),
{
    let head = String::from_str("{\"DeviceID\":").concat(i64_text(r.device_id).as_str()).concat(
        ",\"DeviceUID\":",
    ).concat(crate::text::u64_text(r.device_uid).as_str());
    let id = if with_id {
        String::from_str(",\"ID\":").concat(json_string(r.id.as_str()).as_str())
    } else {
        String::new()
    };
    let loc = String::from_str("{\"SlotID\":").concat(i64_text(r.slot_id).as_str()).concat(",\"TrayIndex\":").concat(
        i64_text(r.tray_index).as_str(),
    ).concat("}");
    head.concat(id.as_str()).concat(",\"LocationInfo\":").concat(loc.as_str()).concat("}")
}

/// The body answering a GPU query: the GPU's object with its `ID`.
pub fn gpu_info_body(r: &GpuRecord) -> (s: String)
    ensures
        s@ == gpu_json(*r, true),
{
    gpu_text(r, true)
}

/// The body answering a GPU-list query.
pub open spec fn gpu_list_json(domain_uuid: Seq<char>, gpus: Seq<GpuRecord>) -> Seq<char> {
    "{\"DomainUUID\":"@ + json_quoted(domain_uuid) + ",\"Gpus\":"@ + json_array(
        Seq::new(gpus.len(), |i: int| gpu_json(gpus[i], false)),
    ) + "}"@
}

/// The body answering a GPU-list query: the domain and each GPU's object, in order.
pub fn gpu_info_list_body(domain_uuid: &str, gpus: &Vec<GpuRecord>) -> (s: String)
    ensures
        s@ == gpu_list_json(domain_uuid@, gpus@),
{
    let mut items: Vec<String> = Vec::new();
    let mut i: usize = 0;
    while i < gpus.len()
        invariant
            i <= gpus@.len(),
            items@.len() == i,
            forall|k: int| 0 <= k < i ==> (#[trigger] items@[k])@ == gpu_json(gpus@[k], false),
        decreases gpus@.len() - i,
    {
        items.push(gpu_text(&gpus[i], false));
        i = i + 1;
    }
    let arr = array_text(&items);
    assert(texts_of(items@) =~= Seq::new(gpus@.len(), |i: int| gpu_json(gpus@[i], false)));
    String::from_str("{\"DomainUUID\":").concat(json_string(domain_uuid).as_str()).concat(",\"Gpus\":").concat(
        arr.as_str(),
    ).concat("}")
}

/// The JSON object of a compute-node record.
pub open spec fn node_json(n: ComputeNodeRecord) -> Seq<char> {
    "{\"DomainUUID\":"@ + json_quoted(n.domain_uuid@) + ",\"GpuIDList\":"@ + json_array(
        Seq::new(n.gpu_ids@.len(), |j: int| json_quoted(n.gpu_ids@[j]@)),
    ) + ",\"LocationInfo\":{\"ChassisSerialNumber\":"@ + json_quoted(n.chassis_serial_number@) + ",\"TrayIndex\":"@
        + int_text(n.tray_index as int) + "}}"@
}

fn node_text(n: &ComputeNodeRecord) -> (s: String)
    ensures
        s@ == node_json(*n),
{
    let mut ids: Vec<String> = Vec::new();
    let mut j: usize = 0;
    while j < n.gpu_ids.len()
        invariant
            j <= n.gpu_ids@.len(),
            ids@.len() == j,
            forall|k: int| 0 <= k < j ==> (#[trigger] ids@[k])@ == json_quoted(n.gpu_ids@[k]@),
        decreases n.gpu_ids@.len() - j,
    {
        ids.push(json_string(n.gpu_ids[j].as_str()));
        j = j + 1;
    }
    let arr = array_text(&ids);
    assert(texts_of(ids@) =~= Seq::new(n.gpu_ids@.len(), |j: int| json_quoted(n.gpu_ids@[j]@)));
    String::from_str("{\"DomainUUID\":").concat(json_string(n.domain_uuid.as_str()).as_str()).concat(
        ",\"GpuIDList\":",
    ).concat(arr.as_str()).concat(",\"LocationInfo\":{\"ChassisSerialNumber\":").concat(
        json_string(n.chassis_serial_number.as_str()).as_str(),
    ).concat(",\"TrayIndex\":").concat(i64_text(n.tray_index).as_str()).concat("}}")
}

/// The body answering a compute-node query: each listed node's object, in order.
pub fn compute_node_info_list_body(nodes: &Vec<ComputeNodeRecord>) -> (s: String)
    ensures
        s@ == json_array(Seq::new(nodes@.len(), |i: int| node_json(nodes@[i]))),
{
    let mut items: Vec<String> = Vec::new();
    let mut i: usize = 0;
    while i < nodes.len()
        invariant
            i <= nodes@.len(),
            items@.len() == i,
            forall|k: int| 0 <= k < i ==> (#[trigger] items@[k])@ == node_json(nodes@[k]),
        decreases nodes@.len() - i,
    {
        items.push(node_text(&nodes[i]));
        i = i + 1;
    }
    assert(texts_of(items@) =~= Seq::new(nodes@.len(), |i: int| node_json(nodes@[i])));
    array_text(&items)
}

} // verus!
