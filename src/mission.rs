use vstd::prelude::*;

use crate::rfc3339::{format_millis, parse_millis, rfc3339_millis, rfc3339_text};

verus! {

/// A tracked unit of work. It is ongoing while `end_date` is `None`.
pub struct Mission {
    pub id: i64,
    pub name: String,
    /// Milliseconds since the epoch.
    pub start_date: i64,
    /// Milliseconds since the epoch; `None` while the mission is ongoing.
    pub end_date: Option<i64>,
}

/// The mathematical value of a [`Mission`].
pub struct MissionView {
    pub id: int,
    pub name: Seq<char>,
    pub start_date: int,
    pub end_date: Option<int>,
}

impl MissionView {
    pub open spec fn is_open(self) -> bool {
        self.end_date is None
    }

    /// Milliseconds between the start and the end, or `now` while ongoing.
    pub open spec fn elapsed_millis(self, now: int) -> int {
        match self.end_date {
            Some(e) => e - self.start_date,
            None => now - self.start_date,
        }
    }

    /// Whole seconds elapsed, the fraction dropped toward zero.
    pub open spec fn elapsed_seconds(self, now: int) -> int {
        truncated_seconds(self.elapsed_millis(now))
    }
}

/// A span of milliseconds as whole seconds, rounded toward zero.
pub open spec fn truncated_seconds(ms: int) -> int {
    if ms >= 0 {
        ms / 1000
    } else {
        -((-ms) / 1000)
    }
}

/// A mission as the store keeps it: start and end as RFC 3339 text.
pub struct MissionRow {
    pub id: i64,
    pub name: String,
    pub start_date: String,
    pub end_date: Option<String>,
}

/// Why a stored row could not be turned into a mission or back.
#[derive(Debug, PartialEq, Eq, Structural, Clone, Copy)]
pub enum RowError {
    /// The start date is not an RFC 3339 timestamp.
    BadStartDate,
    /// The end date is not an RFC 3339 timestamp.
    BadEndDate,
    /// A date cannot be written as an RFC 3339 timestamp.
    DateOutOfRange,
}

impl View for Mission {
    type V = MissionView;

    open spec fn view(&self) -> MissionView {
        MissionView {
            id: self.id as int,
            name: self.name@,
            start_date: self.start_date as int,
            end_date: match self.end_date {
                Some(e) => Some(e as int),
                None => None,
            },
        }
    }
}

impl MissionRow {
    /// The row has an end date that is not an RFC 3339 timestamp.
    pub open spec fn end_unreadable(&self) -> bool {
        match self.end_date {
            Some(e) => rfc3339_millis(e@) is None,
            None => false,
        }
    }
}

impl Mission {
    /// The mission has an end date that cannot be written as RFC 3339.
    pub open spec fn end_unwritable(&self) -> bool {
        match self.end_date {
            Some(e) => rfc3339_text(e) is None,
            None => false,
        }
    }

    /// A new ongoing mission.
    pub fn new(id: i64, name: String, start_date: i64) -> (r: Mission)
        ensures
            r.id == id,
            r.name@ == name@,
            r.start_date == start_date,
            r.end_date is None,
    {
        Mission { id, name, start_date, end_date: None }
    }

    pub fn is_open(&self) -> (r: bool)
        ensures
            r == self@.is_open(),
    {
        self.end_date.is_none()
    }

    /// Whole seconds between the start and the end, or `now` while the
    /// mission is ongoing; the fraction of a second is dropped.
    pub fn elapsed_time(&self, now: i64) -> (r: i64)
        ensures
            r == self@.elapsed_seconds(now as int),
    {
        let until: i64 = match self.end_date {
            Some(e) => e,
            None => now,
        };
        let ms: i128 = until as i128 - self.start_date as i128;
        if ms >= 0 {
            (ms / 1000) as i64
        } else {
            let neg: i128 = -ms;
            -((neg / 1000) as i64)
        }
    }

    pub fn clone_mission(&self) -> (r: Mission)
        ensures
            r@ == self@,
    {
        Mission {
            id: self.id,
            name: self.name.clone(),
            start_date: self.start_date,
            end_date: self.end_date,
        }
    }

    /// Reads a stored row: both dates must be RFC 3339 timestamps.
    pub fn from_row(row: &MissionRow) -> (r: Result<Mission, RowError>)
        ensures
            rfc3339_millis(row.start_date@) is None <==> r == Err::<Mission, RowError>(
                RowError::BadStartDate,
            ),
            (rfc3339_millis(row.start_date@) is Some && row.end_unreadable()) <==> r == Err::<
                Mission,
                RowError,
            >(RowError::BadEndDate),
            r is Ok <==> (rfc3339_millis(row.start_date@) is Some && !row.end_unreadable()),
            r matches Ok(m) ==> {
                &&& m.id == row.id
                &&& m.name@ == row.name@
                &&& Some(m.start_date) == rfc3339_millis(row.start_date@)
                &&& match row.end_date {
                    Some(e) => m.end_date is Some && m.end_date == rfc3339_millis(e@),
                    None => m.end_date is None,
                }
            },
    {
        let start = match parse_millis(row.start_date.as_str()) {
            Some(s) => s,
            None => return Err(RowError::BadStartDate),
        };
        let end = match &row.end_date {
            Some(e) => match parse_millis(e.as_str()) {
                Some(v) => Some(v),
                None => return Err(RowError::BadEndDate),
            },
            None => None,
        };
        Ok(Mission { id: row.id, name: row.name.clone(), start_date: start, end_date: end })
    }

    /// Writes the mission as a row, its dates as RFC 3339 text.
    pub fn to_row(&self) -> (r: Result<MissionRow, RowError>)
        ensures
            r is Err <==> (rfc3339_text(self.start_date) is None || self.end_unwritable()),
            r is Err ==> r == Err::<MissionRow, RowError>(RowError::DateOutOfRange),
            r matches Ok(row) ==> {
                &&& row.id == self.id
                &&& row.name@ == self.name@
                &&& rfc3339_text(self.start_date) == Some(row.start_date@)
                &&& match self.end_date {
                    Some(e) => row.end_date matches Some(t) && rfc3339_text(e) == Some(t@),
                    None => row.end_date is None,
                }
            },
    {
        let start = match format_millis(self.start_date) {
            Some(s) => s,
            None => return Err(RowError::DateOutOfRange),
        };
        let end = match self.end_date {
            Some(e) => match format_millis(e) {
                Some(t) => Some(t),
                None => return Err(RowError::DateOutOfRange),
            },
            None => None,
        };
        Ok(MissionRow { id: self.id, name: self.name.clone(), start_date: start, end_date: end })
    }
}

/// Elapsed time of an ongoing mission never decreases as time passes.
pub proof fn lemma_elapsed_monotonic(m: MissionView, t1: int, t2: int)
    requires
        m.is_open(),
        t1 < t2,
    ensures
        m.elapsed_seconds(t1) <= m.elapsed_seconds(t2),
{
    let a = t1 - m.start_date;
    let b = t2 - m.start_date;
    if a >= 0 {
        assert(a / 1000 <= b / 1000) by (nonlinear_arith)
            requires
                0 <= a <= b,
        ;
    } else if b >= 0 {
        assert(-((-a) / 1000) <= 0) by (nonlinear_arith)
            requires
                -a > 0,
        ;
        assert(b / 1000 >= 0) by (nonlinear_arith)
            requires
                b >= 0,
        ;
    } else {
        assert((-b) / 1000 <= (-a) / 1000) by (nonlinear_arith)
            requires
                0 < -b <= -a,
        ;
    }
}

} // verus!
