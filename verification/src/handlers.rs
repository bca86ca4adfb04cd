//! The answer to a request for the metrics: the presentation of what was
//! fetched, or a fixed failure that tells nothing of what went wrong.

use crate::presenter::{present_player_data_as_prometheus_metrics, presentation};
use crate::use_cases::{aggregate, GetAllPlayerDataUseCase};
use vstd::prelude::*;
use vstd::string::*;

verus! {

/// The status of an answer that carries the metrics.
pub const STATUS_OK: u16 = 200;

/// The status of an answer to a request that failed.
pub const STATUS_INTERNAL_SERVER_ERROR: u16 = 500;

/// What is sent back: an HTTP status and a plain-text body.
#[derive(Debug)]
pub struct MetricsResponse {
    pub status: u16,
    pub body: String,
}

/// The body of every failure.
pub open spec fn error_body() -> Seq<char> {
    "internal server error, contact the administrator"@
}

/// The answer to a request that failed, whatever the failure was.
pub fn const_error_response() -> (response: MetricsResponse)
    ensures
        response.status == STATUS_INTERNAL_SERVER_ERROR,
        response.body@ == error_body(),
{
    MetricsResponse {
        status: STATUS_INTERNAL_SERVER_ERROR,
        body: String::from_str("internal server error, contact the administrator"),
    }
}

/// Answers a request from what its four fetches returned: merges, then
/// renders. Where a fetch failed the answer is the fixed failure, and nothing
/// of the other fetches or of the failure itself is in it.
pub fn handle_get_metrics(use_case: &GetAllPlayerDataUseCase) -> (response: MetricsResponse)
    ensures
        use_case.failure() is Some ==> response.status == STATUS_INTERNAL_SERVER_ERROR
            && response.body@ == error_body(),
        use_case.failure() is None ==> response.status == STATUS_OK && response.body@
            == presentation(aggregate(use_case.reported())),
{
    match use_case.get_all_known_aggregated_player_data() {
        Ok(data) => match present_player_data_as_prometheus_metrics(&data) {
            Ok(body) => MetricsResponse { status: STATUS_OK, body },
            Err(_) => const_error_response(),
        },
        Err(_) => const_error_response(),
    }
}

} // verus!
