//! Errors of the watcher and the Korean messages shown for them.

use vstd::prelude::*;

use crate::text::{decimal, push_decimal};

verus! {

/// What can go wrong while collecting candidates.
#[derive(Debug)]
pub enum WatcherError {
    /// The HuggingFace API could not be reached or answered with an error status.
    HfApiUnreachable(String),
    /// HuggingFace asked us to wait before the next request.
    RateLimited { retry_after_secs: u64 },
    /// A response did not have the expected shape.
    SchemaMismatch(String),
    /// A Parquet file could not be read.
    ParquetReadFailed(String),
    /// Anything else.
    Internal(String),
}

/// A result whose error is a [`WatcherError`].
pub type WatcherResult<T> = Result<T, WatcherError>;

/// The user-facing message of an error.
pub open spec fn error_message(e: WatcherError) -> Seq<char> {
    match e {
        WatcherError::HfApiUnreachable(d) => "HuggingFace API에 접속하지 못했어요: "@ + d@,
        WatcherError::RateLimited { retry_after_secs } => "HuggingFace rate limit 초과 — "@
            + decimal(retry_after_secs as nat) + "초 후 다시 시도할게요"@,
        WatcherError::SchemaMismatch(d) => "응답 schema가 예상과 달라요: "@ + d@,
        WatcherError::ParquetReadFailed(d) => "Parquet 파일을 읽지 못했어요: "@ + d@,
        WatcherError::Internal(d) => "내부 에러: "@ + d@,
    }
}

impl WatcherError {
    /// The user-facing message, in Korean.
    pub fn message(&self) -> (r: String)
        ensures
            r@ == error_message(*self),
    {
        match self {
            WatcherError::HfApiUnreachable(d) => {
                let mut s = String::from_str("HuggingFace API에 접속하지 못했어요: ");
                s.append(d.as_str());
                s
            },
            WatcherError::RateLimited { retry_after_secs } => {
                let mut s = String::from_str("HuggingFace rate limit 초과 — ");
                push_decimal(&mut s, *retry_after_secs);
                s.append("초 후 다시 시도할게요");
                s
            },
            WatcherError::SchemaMismatch(d) => {
                let mut s = String::from_str("응답 schema가 예상과 달라요: ");
                s.append(d.as_str());
                s
            },
            WatcherError::ParquetReadFailed(d) => {
                let mut s = String::from_str("Parquet 파일을 읽지 못했어요: ");
                s.append(d.as_str());
                s
            },
            WatcherError::Internal(d) => {
                let mut s = String::from_str("내부 에러: ");
                s.append(d.as_str());
                s
            },
        }
    }
}

} // verus!
