use vstd::prelude::*;
use vstd::string::StringExecFns;
use crate::error::StoreError;
use crate::json::{parse_json_string, record_json, records_json, spec_parse_body};
use crate::response::{
    create_response, delete_response, error_response, list_response, Response,
};
use crate::router::{route_of, spec_route, Route, SpecRoute};
use crate::store::Store;

verus! {

/// The fixed greeting served on `GET /`.
pub open spec fn greeting() -> Seq<char> {
    "Hello Axum! Shuttle rocks!"@
}

/// The schema bootstrap statement, applied once before any request is
/// served; it is idempotent, creating the one table when missing and
/// touching nothing otherwise.
pub fn schema_ddl() -> (r: &'static str)
    ensures
        r@ == "CREATE TABLE IF NOT EXISTS test (id serial PRIMARY KEY, txt text NOT NULL)"@,
{
    "CREATE TABLE IF NOT EXISTS test (id serial PRIMARY KEY, txt text NOT NULL)"
}

/// Dispatch one request against the store: decide the route, perform the
/// single store call the route asks for, and build the response; store
/// failures surface through the uniform error mapping, malformed input is
/// rejected before any store call.
pub fn handle(store: &mut Store, method: &str, path: &str, body: &str) -> (r: Response)
    requires
        old(store).wf(),
        old(store)@.next_id < i32::MAX as int,
    ensures
        final(store).wf(),
        match spec_route(method@, path@) {
            SpecRoute::Root => final(store)@ == old(store)@ && r@.status == 200 && r@.body
                == greeting(),
            SpecRoute::ListTxt => final(store)@ == old(store)@ && r@.status == 200 && r@.body
                == records_json(old(store)@.rows),
            SpecRoute::CreateTxt => match spec_parse_body(body@) {
                Some(txt) => final(store)@ == old(store)@.create_step(txt).0 && r@.status == 200
                    && r@.body == record_json(old(store)@.create_step(txt).1),
                None => final(store)@ == old(store)@ && r@.status == 400 && r@.body
                    == "invalid request body"@,
            },
            SpecRoute::DeleteTxt { id } => match old(store)@.delete_step(id) {
                Some(p) => final(store)@ == p.0 && r@.status == 200 && r@.body == record_json(
                    p.1,
                ),
                None => final(store)@ == old(store)@ && r@ == error_response(
                    StoreError::NotFound { id: id as i32 },
                ),
            },
            SpecRoute::BadId => final(store)@ == old(store)@ && r@.status == 400 && r@.body
                == "invalid id"@,
            SpecRoute::Unknown => final(store)@ == old(store)@ && r@.status == 404 && r@.body
                == "not found"@,
        },
{
    let route = route_of(method, path);
    match route {
        Route::Root => Response {
            status: 200,
            body: String::from_str("Hello Axum! Shuttle rocks!"),
        },
        Route::ListTxt => {
            let rows = store.list();
            list_response(Ok(rows))
        },
        Route::CreateTxt => {
            match parse_json_string(body) {
                Some(txt) => {
                    let rec = store.create(txt);
                    create_response(Ok(rec))
                },
                None => Response { status: 400, body: String::from_str("invalid request body") },
            }
        },
        Route::DeleteTxt { id } => {
            let result = store.delete(id);
            delete_response(result)
        },
        Route::BadId => Response { status: 400, body: String::from_str("invalid id") },
        Route::Unknown => Response { status: 404, body: String::from_str("not found") },
    }
}

} // verus!
