use vstd::prelude::*;
use vstd::string::StrSliceExecFns;
use crate::chars::str_eq;
use crate::numerals::{parse_i32, spec_parse_i32};

verus! {

/// The dispatch decision for one request, with the id as a mathematical
/// integer.
pub enum SpecRoute {
    Root,
    ListTxt,
    CreateTxt,
    DeleteTxt { id: int },
    BadId,
    Unknown,
}

/// The dispatch decision for one request.
pub enum Route {
    Root,
    ListTxt,
    CreateTxt,
    DeleteTxt { id: i32 },
    BadId,
    Unknown,
}

impl View for Route {
    type V = SpecRoute;

    open spec fn view(&self) -> SpecRoute {
        match *self {
            Route::Root => SpecRoute::Root,
            Route::ListTxt => SpecRoute::ListTxt,
            Route::CreateTxt => SpecRoute::CreateTxt,
            Route::DeleteTxt { id } => SpecRoute::DeleteTxt { id: id as int },
            Route::BadId => SpecRoute::BadId,
            Route::Unknown => SpecRoute::Unknown,
        }
    }
}

/// The routing table: `GET /` greets, `GET /txt` lists, `POST /txt`
/// creates, and `DELETE /txt/{id}` deletes the row with the given id; a
/// malformed id under `/txt/` is a client error, anything else is unknown.
pub open spec fn spec_route(method: Seq<char>, path: Seq<char>) -> SpecRoute {
    if method == "GET"@ && path == "/"@ {
        SpecRoute::Root
    } else if method == "GET"@ && path == "/txt"@ {
        SpecRoute::ListTxt
    } else if method == "POST"@ && path == "/txt"@ {
        SpecRoute::CreateTxt
    } else if method == "DELETE"@ && path.len() > 5 && path.take(5) == "/txt/"@ {
        match spec_parse_i32(path.skip(5)) {
            Some(v) => SpecRoute::DeleteTxt { id: v },
            None => SpecRoute::BadId,
        }
    } else {
        SpecRoute::Unknown
    }
}

/// Decide the route for a method and a path.
pub fn route_of(method: &str, path: &str) -> (r: Route)
    ensures
        r@ == spec_route(method@, path@),
{
    if str_eq(method, "GET") && str_eq(path, "/") {
        Route::Root
    } else if str_eq(method, "GET") && str_eq(path, "/txt") {
        Route::ListTxt
    } else if str_eq(method, "POST") && str_eq(path, "/txt") {
        Route::CreateTxt
    } else if str_eq(method, "DELETE") {
        let n = path.unicode_len();
        if n > 5 {
            let prefix = path.substring_char(0, 5);
            if str_eq(prefix, "/txt/") {
                let suffix = path.substring_char(5, n);
                match parse_i32(suffix) {
                    Some(v) => Route::DeleteTxt { id: v },
                    None => Route::BadId,
                }
            } else {
                Route::Unknown
            }
        } else {
            Route::Unknown
        }
    } else {
        Route::Unknown
    }
}

} // verus!
