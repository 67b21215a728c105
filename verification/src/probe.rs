//! Classification of a single probe's response.

use vstd::prelude::*;

verus! {

/// The terminal state of one probe.
#[derive(Clone, Copy, PartialEq, Eq, Debug, Structural)]
pub enum Outcome {
    /// The platform answered with a success status: the account exists.
    Claimed,
    /// The platform answered with any other status.
    NotClaimed,
    /// No answer could be obtained: the request failed or timed out.
    Inconclusive,
}

/// What one GET request came back with, as the caller observed it.
#[derive(Clone, Copy, PartialEq, Eq, Debug, Structural)]
pub enum ProbeResponse {
    /// A response arrived; this is its HTTP status code.
    Status(u16),
    /// The request ended without a response (DNS, connection, TLS, timeout).
    Failed,
}

/// The success range of HTTP status codes.
pub open spec fn is_success_status(code: u16) -> bool {
    200 <= code <= 299
}

/// The outcome that a response stands for.
pub open spec fn outcome_of(response: ProbeResponse) -> Outcome {
    match response {
        ProbeResponse::Status(code) => if is_success_status(code) {
            Outcome::Claimed
        } else {
            Outcome::NotClaimed
        },
        ProbeResponse::Failed => Outcome::Inconclusive,
    }
}

/// Asks `reqwest::StatusCode` whether `code` is a success status.
///
/// Trusted: `StatusCode::from_u16` rejects every code below 100 or above 999
/// and keeps the number of any other; `StatusCode::is_success` holds exactly
/// of the numbers 200 to 299. A rejected code is no success.
#[verifier::external_body]
fn status_is_success(code: u16) -> (success: bool)
    ensures
        success == is_success_status(code),
{
    match reqwest::StatusCode::from_u16(code) {
        Ok(status) => status.is_success(),
        Err(_) => false,
    }
}

/// Classifies one response: a success status means the username is claimed,
/// any other status that it is not, and a failed request decides nothing.
pub fn classify(response: ProbeResponse) -> (outcome: Outcome)
    ensures
        outcome == outcome_of(response),
        outcome == Outcome::Claimed <==> (response matches ProbeResponse::Status(code)
            && 200 <= code <= 299),
        outcome == Outcome::Inconclusive <==> response == ProbeResponse::Failed,
{
    match response {
        ProbeResponse::Status(code) => {
            if status_is_success(code) {
                Outcome::Claimed
            } else {
                Outcome::NotClaimed
            }
        },
        ProbeResponse::Failed => Outcome::Inconclusive,
    }
}

} // verus!
