use nvlink_partitioning::browse::CarbideError;
use nvlink_partitioning::endpoints::{
    check_find_by_ids, delete_outcome, endpoint_table_rows, filter_endpoints, insert_failure, row_deleted,
    tenant_organization, update_confirmation, update_outcome, validate_chassis_serial, validate_endpoint,
    EndpointInsertError, EndpointRequestError,
};
use nvlink_partitioning::iteration::NvlinkNmxcEndpoint;

fn row(s: &str, e: &str) -> NvlinkNmxcEndpoint {
    NvlinkNmxcEndpoint { chassis_serial: s.to_string(), endpoint: e.to_string() }
}

fn invalid(r: Result<(), EndpointRequestError>) -> String {
    match r {
        Err(EndpointRequestError::InvalidArgument(m)) => m,
        _ => panic!("expected invalid argument"),
    }
}

#[test]
fn endpoint_requests_need_serial_and_endpoint() {
    assert_eq!(invalid(validate_endpoint("", "")), "chassis_serial must not be empty");
    assert_eq!(invalid(validate_endpoint("CH1", "")), "endpoint must not be empty");
    assert!(validate_endpoint("CH1", "http://x").is_ok());
    assert_eq!(invalid(validate_chassis_serial("")), "chassis_serial must not be empty");
    assert!(validate_chassis_serial("CH1").is_ok());
}

#[test]
fn update_and_delete_answer_not_found() {
    match update_outcome(None) {
        Err(EndpointRequestError::NotFound(m)) => assert_eq!(m, "nvlink_nmxc_endpoints: no row for chassis_serial"),
        _ => panic!("expected not found"),
    }
    let r = update_outcome(Some(row("CH1", "u"))).ok().unwrap();
    assert_eq!(r.endpoint, "u");
    assert!(row_deleted(1));
    assert!(!row_deleted(0));
    assert!(delete_outcome(true).is_ok());
    assert!(matches!(delete_outcome(false), Err(EndpointRequestError::NotFound(_))));
}

#[test]
fn duplicate_insert_is_already_found() {
    match insert_failure(true, "CH1", "INSERT") {
        EndpointInsertError::AlreadyFound { kind, id } => {
            assert_eq!(kind, "nvlink_nmxc_endpoints");
            assert_eq!(id, "CH1");
        }
        _ => panic!("expected already found"),
    }
    assert!(matches!(insert_failure(false, "CH1", "INSERT"), EndpointInsertError::Query(q) if q == "INSERT"));
}

#[test]
fn show_filters_by_serial() {
    let entries = vec![row("A", "1"), row("B", "2"), row("A", "3")];
    let all = filter_endpoints(&entries, None);
    assert_eq!(all.len(), 3);
    let only_a = filter_endpoints(&entries, Some("A"));
    assert_eq!(only_a.len(), 2);
    assert_eq!(only_a[1].endpoint, "3");
    assert!(filter_endpoints(&entries, Some("C")).is_empty());
    let rows = endpoint_table_rows(&only_a);
    assert_eq!(rows[0], ("chassis_serial".to_string(), "endpoint".to_string()));
    assert_eq!(rows[2], ("A".to_string(), "3".to_string()));
    assert_eq!(update_confirmation(&row("A", "http://x")), "updated A -> http://x");
}

#[test]
fn find_by_ids_bounds() {
    match check_find_by_ids(101, 100) {
        Err(CarbideError::InvalidArgument(m)) => assert_eq!(m, "no more than 100 IDs can be accepted"),
        _ => panic!("expected invalid argument"),
    }
    match check_find_by_ids(0, 100) {
        Err(CarbideError::InvalidArgument(m)) => assert_eq!(m, "at least one ID must be provided"),
        _ => panic!("expected invalid argument"),
    }
    assert!(check_find_by_ids(100, 100).is_ok());
    assert!(check_find_by_ids(1, 100).is_ok());
    assert!(matches!(check_find_by_ids(0, 0), Err(CarbideError::InvalidArgument(m)) if m == "at least one ID must be provided"));
}

#[test]
fn tenant_search_needs_organization() {
    assert_eq!(tenant_organization(Some("org".to_string())).ok(), Some("org".to_string()));
    match tenant_organization(None) {
        Err(CarbideError::MissingArgument(a)) => assert_eq!(a, "tenant_organization_id"),
        _ => panic!("expected missing argument"),
    }
}
