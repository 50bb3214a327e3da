//! Error taxonomy of the scheduler.
//!
//! `BadFormat` reports a structurally malformed cadence string, `WeekDay` an
//! out-of-range weekday, `DateOverflow` a day-of-month that does not exist in
//! the resolved month, `AllocTickerError` a failure to allocate a ticker, and
//! `Other` wraps a lower-level failure message.

use vstd::prelude::*;

verus! {

#[derive(Debug, Clone)]
pub enum TErrorKind {
    BadFormat,
    DateOverflow,
    WeekDay,
    AllocTickerError,
    Other(String),
}

#[derive(Debug, Clone)]
pub struct TError {
    pub kind: TErrorKind,
    pub error: String,
}

pub type TResult<T> = Result<T, TError>;

/// The human-readable message that belongs to each error kind.
pub open spec fn message_of(k: TErrorKind) -> Seq<char> {
    match k {
        TErrorKind::BadFormat => "error,bad date format..."@,
        TErrorKind::DateOverflow => "error,Date overflow..."@,
        TErrorKind::WeekDay => "error,bad week day..."@,
        TErrorKind::AllocTickerError => "bad alloc ticker..."@,
        TErrorKind::Other(v) => v@,
    }
}

impl TError {
    pub fn new(vkind: TErrorKind) -> (r: TError)
        ensures
            r.kind == vkind,
            r.error@ == message_of(vkind),
    {
        let error = match &vkind {
            TErrorKind::BadFormat => String::from_str("error,bad date format..."),
            TErrorKind::DateOverflow => String::from_str("error,Date overflow..."),
            TErrorKind::WeekDay => String::from_str("error,bad week day..."),
            TErrorKind::AllocTickerError => String::from_str("bad alloc ticker..."),
            TErrorKind::Other(v) => v.clone(),
        };
        TError { kind: vkind, error }
    }

    pub fn kind(&self) -> (r: &TErrorKind)
        ensures
            *r == self.kind,
    {
        &self.kind
    }

    pub fn last_error(&self) -> (r: &String)
        ensures
            *r == self.error,
    {
        &self.error
    }
}

} // verus!
