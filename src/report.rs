use vstd::prelude::*;

use crate::mission::Mission;
use crate::store::{by_start_descending, report_missions, views, MissionStore};

verus! {

/// Why a report could not be made.
#[derive(Debug, PartialEq, Eq, Structural, Clone, Copy)]
pub enum ReportError {
    /// The date expression did not resolve to a representable instant.
    ParseError,
    /// The resolved instant is not strictly before now.
    InvalidRange,
}

/// The lower bound of a report window, in milliseconds, from the instant
/// (in whole seconds) that a date expression resolved to, if it did.
pub open spec fn window_start(resolved: Option<i64>, now: int) -> Result<int, ReportError> {
    match resolved {
        None => Err(ReportError::ParseError),
        Some(secs) => {
            let ms = secs * 1000;
            if ms < i64::MIN || ms > i64::MAX {
                Err(ReportError::ParseError)
            } else if ms >= now {
                Err(ReportError::InvalidRange)
            } else {
                Ok(ms)
            }
        },
    }
}

/// The whole seconds of `now` (milliseconds), rounded down: the anchor from
/// which relative date expressions are resolved.
pub fn anchor_seconds(now: i64) -> (r: i64)
    ensures
        r as int == now as int / 1000,
{
    if now >= 0 {
        now / 1000
    } else {
        let up: i128 = (-(now as i128) + 999) / 1000;
        assert(up == -(now as int / 1000)) by (nonlinear_arith)
            requires
                now < 0,
                up == (-now + 999) / 1000,
        ;
        -(up as i64)
    }
}

/// Checks the instant that a date expression resolved to (`None` when it did
/// not) against `now`, and gives the window's lower bound in milliseconds.
pub fn report_window_start(resolved: Option<i64>, now: i64) -> (r: Result<i64, ReportError>)
    ensures
        match window_start(resolved, now as int) {
            Ok(t) => r == Ok::<i64, ReportError>(t as i64),
            Err(e) => r == Err::<i64, ReportError>(e),
        },
{
    let secs = match resolved {
        Some(s) => s,
        None => return Err(ReportError::ParseError),
    };
    let ms = match secs.checked_mul(1000) {
        Some(v) => v,
        None => return Err(ReportError::ParseError),
    };
    if ms >= now {
        return Err(ReportError::InvalidRange);
    }
    Ok(ms)
}

/// The report of `store` from the instant that a date expression resolved
/// to: every mission started then or later and every ongoing one, latest
/// start first.
pub fn report_since(store: &MissionStore, resolved: Option<i64>, now: i64) -> (r: Result<
    Vec<Mission>,
    ReportError,
>)
    ensures
        match window_start(resolved, now as int) {
            Ok(t) => r matches Ok(v) && by_start_descending(views(v@)) && views(v@).to_multiset()
                == report_missions(store@, t).to_multiset(),
            Err(e) => r == Err::<Vec<Mission>, ReportError>(e),
        },
{
    match report_window_start(resolved, now) {
        Ok(from) => Ok(store.missions_since(from)),
        Err(e) => Err(e),
    }
}

} // verus!
