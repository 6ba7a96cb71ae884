//! The answer to a query for the cached verdict of one fingerprint.

use crate::models::{ApiResponse, ProjectedMalceiverDocument, ScanResponse, ScanResponseView};
use vstd::prelude::*;

verus! {

/// Status of an answer that carries a verdict.
pub const STATUS_OK: u16 = 200;

/// Status of the answer to a query for a fingerprint that the store does not
/// hold.
pub const STATUS_NOT_FOUND: u16 = 404;

/// Status of the answer to a query that the store failed on.
pub const STATUS_SERVER_ERROR: u16 = 500;

/// The message that goes with `STATUS_NOT_FOUND`.
pub const NOT_FOUND: &'static str = "Not found";

/// The message that goes with `STATUS_SERVER_ERROR`.
pub const LOOKUP_FAILED: &'static str = "lookup failed";

/// What the store made of a query for one fingerprint.
#[derive(Debug)]
pub enum QueryOutcome {
    /// The store holds this record for the fingerprint.
    Found(ProjectedMalceiverDocument),
    /// The store holds no record for the fingerprint.
    Missing,
    /// The store could not be asked.
    Failed,
}

/// What the answer to a query carries.
pub enum QueryAnswerView {
    Verdict(ScanResponseView),
    Message(Seq<char>),
}

/// What an answer to a query carries.
pub open spec fn answer_view(answer: ApiResponse<ScanResponse>) -> QueryAnswerView {
    match answer {
        ApiResponse::Success(entry) => QueryAnswerView::Verdict(entry@),
        ApiResponse::Error(message) => QueryAnswerView::Message(message@),
    }
}

/// The status and the answer of a query: the record as it was found; or
/// that there is none; or that the store failed, with nothing said of how.
pub fn query_response(outcome: QueryOutcome) -> (out: (u16, ApiResponse<ScanResponse>))
    ensures
        match outcome {
            QueryOutcome::Found(document) => out.0 == STATUS_OK && answer_view(out.1)
                == QueryAnswerView::Verdict(document@),
            QueryOutcome::Missing => out.0 == STATUS_NOT_FOUND && answer_view(out.1)
                == QueryAnswerView::Message(NOT_FOUND@),
            QueryOutcome::Failed => out.0 == STATUS_SERVER_ERROR && answer_view(out.1)
                == QueryAnswerView::Message(LOOKUP_FAILED@),
        },
{
    match outcome {
        QueryOutcome::Found(document) => (
            STATUS_OK,
            ApiResponse::Success(
                ScanResponse { sha256: document.sha256, prediction: document.prediction },
            ),
        ),
        QueryOutcome::Missing => (STATUS_NOT_FOUND, ApiResponse::Error(NOT_FOUND.to_owned())),
        QueryOutcome::Failed => (STATUS_SERVER_ERROR, ApiResponse::Error(LOOKUP_FAILED.to_owned())),
    }
}

} // verus!
