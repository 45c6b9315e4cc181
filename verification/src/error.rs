use vstd::prelude::*;

verus! {

/// Failures that the decision core reports.
#[derive(Debug, Clone)]
pub enum BotError {
    /// HTTP 429, with the delay that the server hinted.
    RateLimited { retry_after_ms: Option<u64> },
    Config(String),
    Api { code: i32, errors: Vec<String> },
}

pub type Result<T> = std::result::Result<T, BotError>;

} // verus!
