//! The session data model: a kind (work / break / idle), a start timestamp,
//! an optional end timestamp (`None` means the session is still open) and a
//! free-text note. Timestamps are UTC epoch seconds.

use vstd::prelude::*;

verus! {

/// Largest timestamp the tracker accepts (11 decimal digits of epoch
/// seconds, far beyond any realistic wall clock).
pub const MAX_TIMESTAMP: i64 = 99_999_999_999;

#[derive(Clone, Copy, Debug, PartialEq, Eq, Structural)]
pub enum SessionType {
    Work,
    Break,
    Idle,
}

impl SessionType {
    /// The status label shown for a session of this kind.
    pub fn label(&self) -> (r: &'static str)
        ensures
            *self == SessionType::Work ==> r@ == "WORKING"@,
            *self == SessionType::Break ==> r@ == "ON BREAK"@,
            *self == SessionType::Idle ==> r@ == "IDLE"@,
    {
        match self {
            SessionType::Work => "WORKING",
            SessionType::Break => "ON BREAK",
            SessionType::Idle => "IDLE",
        }
    }
}

/// Mathematical model of a session.
pub ghost struct SessionView {
    pub start_time: int,
    pub end_time: Option<int>,
    pub session_type: SessionType,
    pub note: Seq<char>,
}

#[derive(Debug)]
pub struct Session {
    pub start_time: i64,
    pub end_time: Option<i64>,
    pub session_type: SessionType,
    pub note: String,
}

impl View for Session {
    type V = SessionView;

    open spec fn view(&self) -> SessionView {
        SessionView {
            start_time: self.start_time as int,
            end_time: match self.end_time {
                Some(e) => Some(e as int),
                None => None,
            },
            session_type: self.session_type,
            note: self.note@,
        }
    }
}

impl DeepView for Session {
    type V = SessionView;

    open spec fn deep_view(&self) -> SessionView {
        self.view()
    }
}

impl SessionView {
    /// A session is open while it has no end timestamp.
    pub open spec fn is_open(self) -> bool {
        self.end_time is None
    }

    /// Well-formed sessions have timestamps in range and never end before
    /// they start.
    pub open spec fn wf(self) -> bool {
        &&& 0 <= self.start_time <= MAX_TIMESTAMP as int
        &&& match self.end_time {
            Some(e) => self.start_time <= e <= MAX_TIMESTAMP as int,
            None => true,
        }
    }

    /// Seconds a session has lasted, as of `now` for an open session.
    /// An open session whose start lies after `now` counts as zero.
    pub open spec fn duration_at(self, now: int) -> int {
        match self.end_time {
            Some(e) => e - self.start_time,
            None => if now >= self.start_time {
                now - self.start_time
            } else {
                0
            },
        }
    }
}

impl Session {
    pub open spec fn wf(&self) -> bool {
        self@.wf()
    }

    /// Whether the session is still open.
    pub fn is_open(&self) -> (r: bool)
        ensures
            r == self@.is_open(),
    {
        self.end_time.is_none()
    }

    /// Seconds this session has lasted: `end - start` once closed, else
    /// `now - start` (clamped at zero should the clock run behind).
    pub fn duration(&self, now: i64) -> (r: i64)
        requires
            self.wf(),
            0 <= now <= MAX_TIMESTAMP,
        ensures
            r == self@.duration_at(now as int),
            0 <= r <= MAX_TIMESTAMP,
    {
        match self.end_time {
            Some(e) => e - self.start_time,
            None => {
                if now >= self.start_time {
                    now - self.start_time
                } else {
                    0
                }
            },
        }
    }
}

} // verus!
