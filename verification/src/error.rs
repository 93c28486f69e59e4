use vstd::prelude::*;
use vstd::string::StringExecFns;
use crate::numerals::{dec_int, push_dec_i32};
use crate::chars::chars_to_string;

verus! {

/// A failure surfaced by the record store.
pub enum StoreError {
    /// A statement that had to affect exactly one row matched none.
    NotFound { id: i32 },
    /// The connection to the store was lost or could not be established.
    Connection { detail: String },
    /// The store rejected the statement, e.g. a constraint violation.
    Rejected { detail: String },
}

/// The textual description of a store failure.
pub open spec fn error_message(e: StoreError) -> Seq<char> {
    match e {
        StoreError::NotFound { id } => "no row matched id "@ + dec_int(id as int),
        StoreError::Connection { detail } => "connection failure: "@ + detail@,
        StoreError::Rejected { detail } => "statement rejected: "@ + detail@,
    }
}

/// Every store failure describes itself with at least one character.
pub proof fn lemma_error_message_nonempty(e: StoreError)
    ensures
        error_message(e).len() > 0,
{
    reveal_strlit("no row matched id ");
    reveal_strlit("connection failure: ");
    reveal_strlit("statement rejected: ");
}

impl StoreError {
    /// The description carried to the transport layer.
    pub fn message(&self) -> (r: String)
        ensures
            r@ == error_message(*self),
            r@.len() > 0,
    {
        proof {
            lemma_error_message_nonempty(*self);
        }
        match self {
            StoreError::NotFound { id } => {
                let mut m = String::from_str("no row matched id ");
                let mut digits: Vec<char> = Vec::new();
                push_dec_i32(&mut digits, *id);
                let tail = chars_to_string(&digits);
                m.append(tail.as_str());
                m
            },
            StoreError::Connection { detail } => {
                let mut m = String::from_str("connection failure: ");
                m.append(detail.as_str());
                m
            },
            StoreError::Rejected { detail } => {
                let mut m = String::from_str("statement rejected: ");
                m.append(detail.as_str());
                m
            },
        }
    }
}

/// The uniform error policy: every store failure, whatever its cause, maps
/// to the single internal-error status with the failure's description as
/// the message.
pub fn map_store_error(e: &StoreError) -> (r: (u16, String))
    ensures
        r.0 == 500,
        r.1@ == error_message(*e),
        r.1@.len() > 0,
{
    (500, e.message())
}

} // verus!
