use vstd::prelude::*;
use crate::error::{error_message, map_store_error, StoreError};
use crate::json::{record_json, records_json, render_record, render_records};
use crate::record::Record;
use crate::store::views_of;

verus! {

/// An HTTP-level outcome: a status code and a body.
pub struct Response {
    pub status: u16,
    pub body: String,
}

/// Mathematical image of a [`Response`].
#[verifier::ext_equal]
pub struct ResponseView {
    pub status: int,
    pub body: Seq<char>,
}

impl View for Response {
    type V = ResponseView;

    open spec fn view(&self) -> ResponseView {
        ResponseView { status: self.status as int, body: self.body@ }
    }
}

/// The uniform failure response: the single internal-error status with the
/// failure's description as the body.
pub open spec fn error_response(e: StoreError) -> ResponseView {
    ResponseView { status: 500, body: error_message(e) }
}

/// Error uniformity: every store failure, whatever its kind, yields the one
/// internal-error status with a non-empty textual body.
pub proof fn lemma_error_uniformity(e: StoreError)
    ensures
        error_response(e).status == 500,
        error_response(e).body.len() > 0,
{
    crate::error::lemma_error_message_nonempty(e);
}

/// Build the failure response through the error mapper.
pub fn respond_error(e: &StoreError) -> (r: Response)
    ensures
        r@ == error_response(*e),
        r@.body.len() > 0,
{
    let (status, body) = map_store_error(e);
    let r = Response { status, body };
    proof {
        assert(r@ =~= error_response(*e));
    }
    r
}

/// The create handler's response: on success the created row as JSON with
/// the default success status, on failure the mapped error, verbatim.
pub fn create_response(result: Result<Record, StoreError>) -> (r: Response)
    ensures
        match result {
            Ok(rec) => r@.status == 200 && r@.body == record_json(rec@),
            Err(e) => r@ == error_response(e) && r@.body.len() > 0,
        },
{
    match result {
        Ok(rec) => Response { status: 200, body: render_record(&rec) },
        Err(e) => respond_error(&e),
    }
}

/// The delete handler's response: on success the deleted row's prior
/// contents as JSON, on failure the mapped error, verbatim.
pub fn delete_response(result: Result<Record, StoreError>) -> (r: Response)
    ensures
        match result {
            Ok(rec) => r@.status == 200 && r@.body == record_json(rec@),
            Err(e) => r@ == error_response(e) && r@.body.len() > 0,
        },
{
    match result {
        Ok(rec) => Response { status: 200, body: render_record(&rec) },
        Err(e) => respond_error(&e),
    }
}

/// The list handler's response: on success the JSON array of all rows in
/// listing order, on failure the mapped error, verbatim.
pub fn list_response(result: Result<Vec<Record>, StoreError>) -> (r: Response)
    ensures
        match result {
            Ok(list) => r@.status == 200 && r@.body == records_json(views_of(list@)),
            Err(e) => r@ == error_response(e) && r@.body.len() > 0,
        },
{
    match result {
        Ok(list) => Response { status: 200, body: render_records(&list) },
        Err(e) => respond_error(&e),
    }
}

} // verus!
