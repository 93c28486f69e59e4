use txt_store::error::StoreError;
use txt_store::response::{create_response, delete_response, list_response};
use txt_store::router::{route_of, Route};
use txt_store::service::{handle, schema_ddl};
use txt_store::store::Store;

#[test]
fn routing_table() {
    assert!(matches!(route_of("GET", "/"), Route::Root));
    assert!(matches!(route_of("GET", "/txt"), Route::ListTxt));
    assert!(matches!(route_of("POST", "/txt"), Route::CreateTxt));
    assert!(matches!(route_of("DELETE", "/txt/7"), Route::DeleteTxt { id: 7 }));
    assert!(matches!(route_of("DELETE", "/txt/-3"), Route::DeleteTxt { id: -3 }));
    assert!(matches!(route_of("DELETE", "/txt/abc"), Route::BadId));
    assert!(matches!(route_of("DELETE", "/txt/2147483648"), Route::BadId));
    assert!(matches!(route_of("DELETE", "/txt/"), Route::Unknown));
    assert!(matches!(route_of("DELETE", "/txt"), Route::Unknown));
    assert!(matches!(route_of("PATCH", "/txt"), Route::Unknown));
    assert!(matches!(route_of("GET", "/nope"), Route::Unknown));
}

#[test]
fn scenario_create_list_delete_delete() {
    let mut store = Store::new();

    let created = handle(&mut store, "POST", "/txt", "\"hello\"");
    assert_eq!(created.status, 200);
    assert_eq!(created.body, "{\"id\":1,\"txt\":\"hello\"}");

    let listed = handle(&mut store, "GET", "/txt", "");
    assert_eq!(listed.status, 200);
    assert_eq!(listed.body, "[{\"id\":1,\"txt\":\"hello\"}]");

    let deleted = handle(&mut store, "DELETE", "/txt/1", "");
    assert_eq!(deleted.status, 200);
    assert_eq!(deleted.body, "{\"id\":1,\"txt\":\"hello\"}");

    let again = handle(&mut store, "DELETE", "/txt/1", "");
    assert_eq!(again.status, 500);
    assert!(!again.body.is_empty());

    let empty = handle(&mut store, "GET", "/txt", "");
    assert_eq!(empty.status, 200);
    assert_eq!(empty.body, "[]");
}

#[test]
fn schema_bootstrap_is_idempotent_ddl() {
    assert_eq!(
        schema_ddl(),
        "CREATE TABLE IF NOT EXISTS test (id serial PRIMARY KEY, txt text NOT NULL)"
    );
}

#[test]
fn root_serves_the_greeting() {
    let mut store = Store::new();
    let r = handle(&mut store, "GET", "/", "");
    assert_eq!(r.status, 200);
    assert_eq!(r.body, "Hello Axum! Shuttle rocks!");
}

#[test]
fn malformed_input_is_rejected_before_the_store() {
    let mut store = Store::new();

    let bad_body = handle(&mut store, "POST", "/txt", "not json");
    assert_eq!(bad_body.status, 400);
    assert_eq!(store.count(), 0);

    let bad_id = handle(&mut store, "DELETE", "/txt/xyz", "");
    assert_eq!(bad_id.status, 400);

    let unknown = handle(&mut store, "GET", "/nope", "");
    assert_eq!(unknown.status, 404);
}

#[test]
fn store_failures_map_uniformly_to_500() {
    let r = create_response(Err(StoreError::Connection { detail: "socket closed".to_string() }));
    assert_eq!(r.status, 500);
    assert!(!r.body.is_empty());

    let r = list_response(Err(StoreError::Rejected { detail: "constraint".to_string() }));
    assert_eq!(r.status, 500);
    assert!(!r.body.is_empty());

    let r = delete_response(Err(StoreError::NotFound { id: 3 }));
    assert_eq!(r.status, 500);
    assert_eq!(r.body, "no row matched id 3");
}

#[test]
fn create_escapes_payload_in_response() {
    let mut store = Store::new();
    let r = handle(&mut store, "POST", "/txt", "\"line\\nbreak \\u0041\"");
    assert_eq!(r.status, 200);
    assert_eq!(r.body, "{\"id\":1,\"txt\":\"line\\nbreak A\"}");
}
