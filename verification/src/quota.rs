//! Usage accounting records: one event per request, and aggregated
//! statistics.  The persistent log and its time arithmetic live outside.

use vstd::prelude::*;
use vstd::string::StringExecFns;
use crate::model::{RequestKind, kind_name};

verus! {

/// Errors of the usage accounting.
#[derive(Debug, Clone)]
pub enum QuotaError {
    /// The underlying store failed.
    Database(String),
    /// A request was denied because a limit is reached.
    QuotaExceeded(String),
    /// The accounting store could not be initialized.
    InitializationError(String),
    /// The configuration is unusable.
    ConfigError(String),
}

/// One recorded request.
#[derive(Debug, Clone)]
pub struct UsageEvent {
    pub id: Option<i64>,
    pub timestamp: String,
    pub model: String,
    pub kind: String,
    pub prompt_chars: i32,
    pub response_chars: i32,
    pub approx_input_tokens: i32,
    pub approx_output_tokens: i32,
    pub success: bool,
    pub error_code: Option<String>,
}

impl UsageEvent {
    /// A new event for the given request, timestamped with the current time;
    /// tokens are approximated as one per four characters.
    pub fn new(
        model: &str,
        kind: RequestKind,
        prompt_chars: usize,
        response_chars: usize,
        success: bool,
    ) -> (r: UsageEvent)
        ensures
            r.id is None,
            r.model@ == model@,
            r.kind@ == kind_name(kind),
            r.prompt_chars == ((prompt_chars as int) as i32),
            r.response_chars == ((response_chars as int) as i32),
            r.approx_input_tokens == ((prompt_chars as int / 4) as i32),
            r.approx_output_tokens == ((response_chars as int / 4) as i32),
            r.success == success,
            r.error_code is None,
    {
        let pc = #[verifier::truncate] (prompt_chars as i32);
        let rc = #[verifier::truncate] (response_chars as i32);
        let it = #[verifier::truncate] ((prompt_chars / 4) as i32);
        let ot = #[verifier::truncate] ((response_chars / 4) as i32);
        UsageEvent {
            id: None,
            timestamp: crate::rag::now_rfc3339(),
            model: String::from_str(model),
            kind: kind.name(),
            prompt_chars: pc,
            response_chars: rc,
            approx_input_tokens: it,
            approx_output_tokens: ot,
            success,
            error_code: None,
        }
    }

    /// The same event marked failed, with an error code attached.
    pub fn with_error(self, error_code: &str) -> (r: UsageEvent)
        ensures
            r.error_code matches Some(c) && c@ == error_code@,
            !r.success,
            r.id == self.id,
            r.timestamp == self.timestamp,
            r.model == self.model,
            r.kind == self.kind,
            r.prompt_chars == self.prompt_chars,
            r.response_chars == self.response_chars,
            r.approx_input_tokens == self.approx_input_tokens,
            r.approx_output_tokens == self.approx_output_tokens,
    {
        UsageEvent { error_code: Some(String::from_str(error_code)), success: false, ..self }
    }
}

/// Aggregated usage statistics.
#[derive(Debug, Clone)]
pub struct UsageStats {
    pub requests_today: u32,
    pub requests_last_minute: u32,
    pub input_tokens_today: u32,
    pub output_tokens_today: u32,
    pub last_error: Option<String>,
}

impl Default for UsageStats {
    /// Everything zero, no error.
    fn default() -> (r: UsageStats)
        ensures
            r.requests_today == 0,
            r.requests_last_minute == 0,
            r.input_tokens_today == 0,
            r.output_tokens_today == 0,
            r.last_error is None,
    {
        UsageStats {
            requests_today: 0,
            requests_last_minute: 0,
            input_tokens_today: 0,
            output_tokens_today: 0,
            last_error: None,
        }
    }
}

/// The decision taken before a request is admitted: given the counts over the
/// last minute and the current day and the configured limits, a request is
/// denied exactly when one of the limits is already reached.
pub fn check_quota(
    requests_last_minute: u32,
    requests_today: u32,
    per_minute: u32,
    per_day: u32,
) -> (r: Result<(), QuotaError>)
    ensures
        requests_last_minute >= per_minute ==> r matches Err(QuotaError::QuotaExceeded(_)),
        requests_last_minute < per_minute && requests_today >= per_day ==> r matches Err(
            QuotaError::QuotaExceeded(_),
        ),
        requests_last_minute < per_minute && requests_today < per_day ==> r is Ok,
{
    if requests_last_minute >= per_minute {
        Err(QuotaError::QuotaExceeded(String::from_str("per-minute request limit reached")))
    } else if requests_today >= per_day {
        Err(QuotaError::QuotaExceeded(String::from_str("per-day request limit reached")))
    } else {
        Ok(())
    }
}

} // verus!
