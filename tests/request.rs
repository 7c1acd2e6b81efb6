use sql_lambda::encode::SqlResult;
use sql_lambda::request::{invalid_json, is_sql_route, Reply, SqlRequest};

#[test]
fn unsupported_path_is_not_found() {
    let r = match Reply::for_path("/api/other") {
        Some(r) => r,
        None => panic!("not the endpoint"),
    };
    assert_eq!(r.status(), 404);
    assert_eq!(r.message(), Some("Not Found".to_string()));
    assert!(Reply::for_path("").is_some());
}

#[test]
fn sql_path_goes_on() {
    assert!(Reply::for_path("/api/sql").is_none());
    assert!(is_sql_route("/api/sql"));
    assert!(!is_sql_route("/api/sql/"));
}

#[test]
fn bad_body_is_invalid_json() {
    let r = invalid_json("expected value at line 1 column 1");
    assert_eq!(r.status(), 400);
    let m = r.message().unwrap();
    assert!(m.contains("Invalid JSON"));
    assert_eq!(m, "Invalid JSON: expected value at line 1 column 1");
}

#[test]
fn engine_error_is_bad_request() {
    let r = Reply::for_outcome(Err("table 'nope' not found".to_string()));
    assert_eq!(r.status(), 400);
    assert_eq!(r.message(), Some("table 'nope' not found".to_string()));
}

#[test]
fn success_is_ok() {
    let r = Reply::for_outcome(Ok(SqlResult::empty()));
    assert_eq!(r.status(), 200);
    assert_eq!(r.message(), None);
}

#[test]
fn request_holds_statements() {
    let q = SqlRequest { distributed: true, stmts: vec!["SELECT 1".to_string()] };
    assert!(q.distributed);
    assert_eq!(q.stmts.len(), 1);
}
