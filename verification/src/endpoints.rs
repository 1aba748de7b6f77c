//! The NMX-C endpoint registry (one endpoint URL per chassis serial) and the
//! partition lookups of the API: which requests are refused, and how the
//! database's answers become responses.

use vstd::prelude::*;
use crate::browse::CarbideError;
use crate::iteration::NvlinkNmxcEndpoint;
use crate::text::{decimal_text, text_equal, u32_text};

verus! {

/// Why an endpoint request was refused.
pub enum EndpointRequestError {
    InvalidArgument(String),
    NotFound(String),
}

pub open spec fn empty_serial_text() -> Seq<char> {
    "chassis_serial must not be empty"@
}

pub open spec fn empty_endpoint_text() -> Seq<char> {
    "endpoint must not be empty"@
}

pub open spec fn no_row_text() -> Seq<char> {
    "nvlink_nmxc_endpoints: no row for chassis_serial"@
}

/// A create or update request needs a chassis serial and an endpoint, checked in that order.
pub fn validate_endpoint(chassis_serial: &str, endpoint: &str) -> (r: Result<(), EndpointRequestError>)
    ensures
        chassis_serial@.len() == 0 ==> (r matches Err(EndpointRequestError::InvalidArgument(m)) && m@ == empty_serial_text()),
        chassis_serial@.len() > 0 && endpoint@.len() == 0 ==> (r matches Err(EndpointRequestError::InvalidArgument(m)) && m@
            == empty_endpoint_text()),
        chassis_serial@.len() > 0 && endpoint@.len() > 0 ==> r is Ok,
{
    if chassis_serial.unicode_len() == 0 {
        return Err(EndpointRequestError::InvalidArgument(String::from_str("chassis_serial must not be empty")));
    }
    if endpoint.unicode_len() == 0 {
        return Err(EndpointRequestError::InvalidArgument(String::from_str("endpoint must not be empty")));
    }
    Ok(())
}

/// A delete request needs a chassis serial.
pub fn validate_chassis_serial(chassis_serial: &str) -> (r: Result<(), EndpointRequestError>)
    ensures
        chassis_serial@.len() == 0 ==> (r matches Err(EndpointRequestError::InvalidArgument(m)) && m@ == empty_serial_text()),
        chassis_serial@.len() > 0 ==> r is Ok,
{
    if chassis_serial.unicode_len() == 0 {
        return Err(EndpointRequestError::InvalidArgument(String::from_str("chassis_serial must not be empty")));
    }
    Ok(())
}

/// The answer to an update: the updated row, or not found when the chassis had no row.
pub fn update_outcome(updated: Option<NvlinkNmxcEndpoint>) -> (r: Result<NvlinkNmxcEndpoint, EndpointRequestError>)
    ensures
        updated matches Some(row) ==> (r matches Ok(x) && x == row),
        updated is None ==> (r matches Err(EndpointRequestError::NotFound(m)) && m@ == no_row_text()),
{
    match updated {
        Some(row) => Ok(row),
        None => Err(EndpointRequestError::NotFound(String::from_str("nvlink_nmxc_endpoints: no row for chassis_serial"))),
    }
}

/// Whether a delete removed a row, from the number of rows it affected.
pub fn row_deleted(rows_affected: u64) -> (b: bool)
    ensures
        b == (rows_affected > 0),
{
    rows_affected > 0
}

/// The answer to a delete: done, or not found when no row was removed.
pub fn delete_outcome(deleted: bool) -> (r: Result<(), EndpointRequestError>)
    ensures
        deleted ==> r is Ok,
        !deleted ==> (r matches Err(EndpointRequestError::NotFound(m)) && m@ == no_row_text()),
{
    if !deleted {
        return Err(EndpointRequestError::NotFound(String::from_str("nvlink_nmxc_endpoints: no row for chassis_serial")));
    }
    Ok(())
}

/// Why inserting an endpoint row failed.
pub enum EndpointInsertError {
    /// The chassis already has a row.
    AlreadyFound { kind: String, id: String },
    /// Any other database failure, with the statement that failed.
    Query(String),
}

/// A failed insert: a unique violation means the chassis already has a row.
pub fn insert_failure(unique_violation: bool, chassis_serial: &str, statement: &str) -> (e: EndpointInsertError)
    ensures
        unique_violation ==> (e matches EndpointInsertError::AlreadyFound { kind, id } && kind@ == "nvlink_nmxc_endpoints"@
            && id@ == chassis_serial@),
        !unique_violation ==> (e matches EndpointInsertError::Query(q) && q@ == statement@),
{
    if unique_violation {
        EndpointInsertError::AlreadyFound { kind: String::from_str("nvlink_nmxc_endpoints"), id: String::from_str(chassis_serial) }
    } else {
        EndpointInsertError::Query(String::from_str(statement))
    }
}

/// An entry as a pair of texts: chassis serial and endpoint URL.
pub open spec fn entry_view(e: NvlinkNmxcEndpoint) -> (Seq<char>, Seq<char>) {
    (e.chassis_serial@, e.endpoint@)
}

pub open spec fn entries_view(entries: Seq<NvlinkNmxcEndpoint>) -> Seq<(Seq<char>, Seq<char>)> {
    entries.map_values(|e: NvlinkNmxcEndpoint| entry_view(e))
}

/// The entries whose chassis serial is `serial`, in order.
pub open spec fn entries_for(entries: Seq<(Seq<char>, Seq<char>)>, serial: Seq<char>) -> Seq<(Seq<char>, Seq<char>)>
    decreases entries.len(),
{
    if entries.len() == 0 {
        Seq::empty()
    } else {
        let rest = entries_for(entries.drop_last(), serial);
        if entries.last().0 == serial {
            rest.push(entries.last())
        } else {
            rest
        }
    }
}

/// The entries to show: all of them, or only those of the given chassis serial.
pub fn filter_endpoints(entries: &Vec<NvlinkNmxcEndpoint>, chassis_serial: Option<&str>) -> (r: Vec<NvlinkNmxcEndpoint>)
    ensures
        chassis_serial is None ==> entries_view(r@) == entries_view(entries@),
        chassis_serial matches Some(s) ==> entries_view(r@) == entries_for(entries_view(entries@), s@),
{
    let ghost all = entries_view(entries@);
    let mut r: Vec<NvlinkNmxcEndpoint> = Vec::new();
    let mut i: usize = 0;
    while i < entries.len()
        invariant
            i <= entries@.len(),
            all == entries_view(entries@),
            chassis_serial is None ==> entries_view(r@) == all.subrange(0, i as int),
            chassis_serial matches Some(s) ==> entries_view(r@) == entries_for(all.subrange(0, i as int), s@),
        decreases entries@.len() - i,
    {
        proof {
            assert(all.subrange(0, i as int + 1).drop_last() =~= all.subrange(0, i as int));
            assert(all.subrange(0, i as int + 1).last() == entry_view(entries@[i as int]));
        }
        let keep = match chassis_serial {
            None => true,
            Some(s) => text_equal(entries[i].chassis_serial.as_str(), s),
        };
        if keep {
            let ghost before = r@;
            let e = entries[i].duplicate();
            r.push(e);
            assert(entries_view(r@) =~= entries_view(before).push(entry_view(entries@[i as int])));
        }
        i = i + 1;
    }
    proof {
        assert(all.subrange(0, entries@.len() as int) =~= all);
    }
    r
}

/// The rows of the endpoint table: a header, then one row per entry.
pub fn endpoint_table_rows(entries: &Vec<NvlinkNmxcEndpoint>) -> (r: Vec<(String, String)>)
    ensures
        r@.len() == entries@.len() + 1,
        r@[0].0@ == "chassis_serial"@,
        r@[0].1@ == "endpoint"@,
        forall|i: int| 0 <= i < entries@.len() ==> (#[trigger] r@[i + 1]).0@ == entries@[i].chassis_serial@ && r@[i + 1].1@
            == entries@[i].endpoint@,
{
    let mut r: Vec<(String, String)> = Vec::new();
    r.push((String::from_str("chassis_serial"), String::from_str("endpoint")));
    let mut i: usize = 0;
    while i < entries.len()
        invariant
            i <= entries@.len(),
            r@.len() == i + 1,
            r@[0].0@ == "chassis_serial"@,
            r@[0].1@ == "endpoint"@,
            forall|k: int| 0 <= k < i ==> (#[trigger] r@[k + 1]).0@ == entries@[k].chassis_serial@ && r@[k + 1].1@
                == entries@[k].endpoint@,
        decreases entries@.len() - i,
    {
        r.push((entries[i].chassis_serial.clone(), entries[i].endpoint.clone()));
        i = i + 1;
    }
    r
}

/// The confirmation printed after an update.
pub fn update_confirmation(row: &NvlinkNmxcEndpoint) -> (s: String)
    ensures
        s@ == "updated "@ + row.chassis_serial@ + " -> "@ + row.endpoint@,
{
    String::from_str("updated ").concat(row.chassis_serial.as_str()).concat(" -> ").concat(row.endpoint.as_str())
}

pub open spec fn too_many_ids_text(max: u32) -> Seq<char> {
    "no more than "@ + decimal_text(max as nat) + " IDs can be accepted"@
}

/// A lookup by IDs accepts from one up to `max_find_by_ids` IDs.
pub fn check_find_by_ids(count: usize, max_find_by_ids: u32) -> (r: Result<(), CarbideError>)
    ensures
        count > max_find_by_ids ==> (r matches Err(CarbideError::InvalidArgument(m)) && m@ == too_many_ids_text(max_find_by_ids)),
        count <= max_find_by_ids && count == 0 ==> (r matches Err(CarbideError::InvalidArgument(m)) && m@
            == "at least one ID must be provided"@),
        0 < count <= max_find_by_ids ==> r is Ok,
{
    if count as u64 > max_find_by_ids as u64 {
        let m = String::from_str("no more than ").concat(u32_text(max_find_by_ids).as_str()).concat(" IDs can be accepted");
        return Err(CarbideError::InvalidArgument(m));
    } else if count == 0 {
        return Err(CarbideError::InvalidArgument(String::from_str("at least one ID must be provided")));
    }
    Ok(())
}

/// A search by tenant needs the tenant organization.
pub fn tenant_organization(tenant_organization_id: Option<String>) -> (r: Result<String, CarbideError>)
    ensures
        tenant_organization_id matches Some(t) ==> (r matches Ok(x) && x@ == t@),
        tenant_organization_id is None ==> (r matches Err(CarbideError::MissingArgument(a)) && a@ == "tenant_organization_id"@),
{
    match tenant_organization_id {
        Some(t) => Ok(t),
        None => Err(CarbideError::MissingArgument(String::from_str("tenant_organization_id"))),
    }
}

} // verus!
