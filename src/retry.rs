//! When a request may be sent again.
use vstd::prelude::*;

verus! {

/// HTTP request methods.
#[derive(Clone, Copy, Debug, PartialEq, Eq, Structural)]
pub enum Method {
    Get,
    Head,
    Post,
    Put,
    Patch,
    Delete,
    Options,
}

impl Method {
    /// GET and HEAD: the methods that may be retried and cached.
    pub open spec fn is_safe(self) -> bool {
        self == Method::Get || self == Method::Head
    }

    pub fn safe(&self) -> (r: bool)
        ensures
            r == self.is_safe(),
    {
        match self {
            Method::Get | Method::Head => true,
            _ => false,
        }
    }
}

/// How one send of a request ended.
#[derive(Clone, Copy, Debug, PartialEq, Eq, Structural)]
pub enum Outcome {
    /// No response came back; `transient` when the failure may pass
    /// (connection refused or reset, timeout).
    TransportFailure { transient: bool },
    /// A response came back with this status code.
    Status(u16),
}

/// What a status code says of a request that got it.
#[derive(Clone, Copy, Debug, PartialEq, Eq, Structural)]
pub enum StatusClass {
    /// Nothing went wrong.
    Success,
    /// The failure may pass if the request is sent again.
    Transient,
    /// Sending the request again will not help.
    Fatal,
}

/// The classification of a valid status code: server errors, request
/// timeout (408) and too many requests (429) are transient, 2xx codes are
/// successes, everything else is fatal.
pub open spec fn status_class(code: u16) -> StatusClass {
    if 500 <= code < 600 {
        StatusClass::Transient
    } else if 400 <= code < 500 && code != 408 && code != 429 {
        StatusClass::Fatal
    } else if 200 <= code < 300 {
        StatusClass::Success
    } else if code == 408 || code == 429 {
        StatusClass::Transient
    } else {
        StatusClass::Fatal
    }
}

/// Relies on `reqwest_retry::default_on_request_success`, applied to a
/// response that carries `code`: it reports 5xx, 408 and 429 as
/// transient, other 4xx as fatal, 2xx as no failure, and the rest as fatal.
/// `http::StatusCode::from_u16` accepts exactly the codes in `100..1000`.
#[verifier::external_body]
fn classify_status_code(code: u16) -> (r: StatusClass)
    requires
        100 <= code < 1000,
    ensures
        r == status_class(code),
{
    let response = http::Response::builder().status(code).body(Vec::<u8>::new()).unwrap();
    match reqwest_retry::default_on_request_success(&reqwest::Response::from(response)) {
        None => StatusClass::Success,
        Some(reqwest_retry::Retryable::Transient) => StatusClass::Transient,
        Some(reqwest_retry::Retryable::Fatal) => StatusClass::Fatal,
    }
}

/// Relies on `ExponentialBackoff::should_retry` of retry-policies, for a
/// policy built with `build_with_max_retries(max_retries)`: it declines
/// exactly when `max_retries <= past_retries`.
#[verifier::external_body]
fn retry_budget_left(max_retries: u32, past_retries: u32) -> (r: bool)
    ensures
        r == (past_retries < max_retries),
{
    let policy = reqwest_retry::policies::ExponentialBackoff::builder().build_with_max_retries(
        max_retries,
    );
    match reqwest_retry::RetryPolicy::should_retry(&policy, past_retries) {
        retry_policies::RetryDecision::Retry { .. } => true,
        retry_policies::RetryDecision::DoNotRetry => false,
    }
}

/// A status code on which the request is sent again: a transient one, but
/// not 501, with which the server says it will never do the request.
pub open spec fn status_retryable(code: u16) -> bool {
    &&& 100 <= code < 1000
    &&& status_class(code) == StatusClass::Transient
    &&& code != 501
}

pub open spec fn outcome_retryable(outcome: Outcome) -> bool {
    match outcome {
        Outcome::TransportFailure { transient } => transient,
        Outcome::Status(code) => status_retryable(code),
    }
}

/// Whether a request that ended in `outcome` after `attempt` retries is
/// sent again.
pub open spec fn should_retry_spec(
    method: Method,
    outcome: Outcome,
    attempt: u32,
    max_retries: u32,
) -> bool {
    &&& method.is_safe()
    &&& attempt < max_retries
    &&& outcome_retryable(outcome)
}

/// Classifies a status code; codes outside `100..1000` are not valid HTTP
/// and count as fatal.
pub fn classify(code: u16) -> (r: StatusClass)
    ensures
        100 <= code < 1000 ==> r == status_class(code),
        !(100 <= code < 1000) ==> r == StatusClass::Fatal,
{
    if 100 <= code && code < 1000 {
        classify_status_code(code)
    } else {
        StatusClass::Fatal
    }
}

/// Whether `outcome` may pass if the request is sent again.
pub fn is_retryable(outcome: Outcome) -> (r: bool)
    ensures
        r == outcome_retryable(outcome),
{
    match outcome {
        Outcome::TransportFailure { transient } => transient,
        Outcome::Status(code) => {
            if code == 501 {
                false
            } else {
                match classify(code) {
                    StatusClass::Transient => 100 <= code && code < 1000,
                    _ => false,
                }
            }
        },
    }
}

/// Decides whether a request of `method` that ended in `outcome` after
/// `attempt` retries is sent again, with at most `max_retries` retries.
/// Only GET and HEAD are ever retried.
pub fn should_retry(method: Method, outcome: Outcome, attempt: u32, max_retries: u32) -> (r: bool)
    ensures
        r == should_retry_spec(method, outcome, attempt, max_retries),
{
    method.safe() && retry_budget_left(max_retries, attempt) && is_retryable(outcome)
}

} // verus!
