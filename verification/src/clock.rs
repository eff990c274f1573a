//! Moments in time, and a wall clock that is watched for jumps.
use vstd::prelude::*;

use crate::seqs;

verus! {

/// The first second that a moment can name.
pub const FIRST_SECOND: i64 = -8_334_601_228_800;

/// The last second that a moment can name.
pub const LAST_SECOND: i64 = 8_210_266_876_799;

/// A moment in time: seconds since the Unix epoch, and nanoseconds behind them.
#[derive(Debug, Clone, Copy, PartialEq, Eq, Structural)]
pub struct Moment {
    pub seconds: i64,
    pub nanos: u32,
}

impl Moment {
    /// A moment that a calendar can name.
    pub open spec fn wf(self) -> bool {
        FIRST_SECOND <= self.seconds <= LAST_SECOND && self.nanos < 1_000_000_000
    }

    /// Nanoseconds since the Unix epoch.
    pub open spec fn total_nanos(self) -> int {
        self.seconds * 1_000_000_000 + self.nanos
    }

    /// This moment is written in one line.
    pub open spec fn is_written(self) -> bool {
        seqs::lacks(rfc3339_text(self.seconds, self.nanos), '\n')
    }

    /// Can a calendar name this moment?
    pub fn is_valid(&self) -> (r: bool)
        ensures
            r == self.wf(),
    {
        FIRST_SECOND <= self.seconds && self.seconds <= LAST_SECOND && self.nanos < 1_000_000_000
    }
}

/// What `DateTime::to_rfc3339` writes for the moment that is so many seconds and
/// nanoseconds behind the Unix epoch, in UTC.
pub uninterp spec fn rfc3339_text(seconds: i64, nanos: u32) -> Seq<char>;

/// A character of a date and time: a digit, or what stands between digits.
pub open spec fn date_char(c: char) -> bool {
    ('0' <= c && c <= '9') || c == '-' || c == ':' || c == 'T' || c == '.' || c == '+'
}

/// `chrono::DateTime::to_rfc3339`, in UTC: a text that is a function of the
/// moment alone, made of digits and of `-`, `:`, `T`, `.` and `+`.
#[verifier::external_body]
pub(crate) fn rfc3339(m: Moment) -> (r: String)
    requires
        m.wf(),
    ensures
        r@ == rfc3339_text(m.seconds, m.nanos),
        forall|i: int| 0 <= i < r@.len() ==> date_char(#[trigger] r@[i]),
{
    chrono::DateTime::from_timestamp(m.seconds, m.nanos).unwrap().to_rfc3339()
}

/// `chrono::DateTime::checked_add_signed`: the moment that is so many whole
/// seconds later, or `None` when a calendar cannot name it.
#[verifier::external_body]
pub(crate) fn add_seconds(m: Moment, seconds: i64) -> (r: Option<Moment>)
    requires
        m.wf(),
        -(i64::MAX / 1000) <= seconds <= i64::MAX / 1000,
    ensures
        r == (if FIRST_SECOND <= m.seconds + seconds <= LAST_SECOND {
            Some(Moment { seconds: (m.seconds + seconds) as i64, nanos: m.nanos })
        } else {
            None
        }),
{
    let t = chrono::DateTime::from_timestamp(m.seconds, m.nanos).unwrap();
    let later = t.checked_add_signed(chrono::TimeDelta::seconds(seconds))?;
    Some(Moment { seconds: later.timestamp(), nanos: later.timestamp_subsec_nanos() })
}

/// Whole seconds from `b` to `a`, rounded towards zero.
pub open spec fn whole_seconds(a: Moment, b: Moment) -> int {
    let n = a.total_nanos() - b.total_nanos();
    if n >= 0 {
        n / 1_000_000_000
    } else {
        -((-n) / 1_000_000_000)
    }
}

/// `chrono::DateTime::signed_duration_since` and `TimeDelta::num_seconds`: the
/// whole seconds from `b` to `a`, rounded towards zero.
#[verifier::external_body]
pub(crate) fn seconds_between(a: Moment, b: Moment) -> (r: i64)
    requires
        a.wf(),
        b.wf(),
    ensures
        r == whole_seconds(a, b),
{
    let later = chrono::DateTime::from_timestamp(a.seconds, a.nanos).unwrap();
    let earlier = chrono::DateTime::from_timestamp(b.seconds, b.nanos).unwrap();
    later.signed_duration_since(earlier).num_seconds()
}

/// The smallest jump worth calling a step.
pub const STEP_FLOOR: i64 = 2;

/// The share of the gap between observations that is written off as drift.
pub const DRIFT_SHARE: i64 = 4;

/// The wall clock, watched for jumps.
///
/// Two clocks disagreeing is not one thing. A *step* is a discontinuity (an
/// NTP correction, a VM resumed from a snapshot, somebody running `date -s`)
/// and it moves a ticket's expiry relative to the time its holder was
/// promised. *Drift* is the two clocks running at different rates, which is
/// ordinary.
///
/// So each observation is compared against what the monotonic clock says
/// should have passed since the last one, with a tolerance proportional to
/// that gap. Drift stays inside the tolerance by definition (it is a rate);
/// a step of any size that matters does not.
#[derive(Debug, Clone, Copy, PartialEq, Eq, Structural)]
pub struct SeenClock {
    /// The raw wall reading at the last observation.
    pub last_wall: i64,
    /// The monotonic reading at the last observation, in seconds since start.
    pub last_mono: i64,
    /// Total of the backward steps seen, added back so they buy nobody time.
    pub correction: i64,
    /// Every step seen, signed and summed, for the receipt to report. Distinct
    /// from `correction`, which only accumulates the backward half.
    pub stepped: i64,
    pub seen_any: bool,
}

impl Default for SeenClock {
    fn default() -> (r: SeenClock)
        ensures
            r == (SeenClock {
                last_wall: 0,
                last_mono: 0,
                correction: 0,
                stepped: 0,
                seen_any: false,
            }),
    {
        SeenClock { last_wall: 0, last_mono: 0, correction: 0, stepped: 0, seen_any: false }
    }
}

impl SeenClock {
    /// Readings that a clock can give, and a correction that takes nothing away.
    pub open spec fn wf(self) -> bool {
        &&& FIRST_SECOND <= self.last_wall <= LAST_SECOND
        &&& 0 <= self.last_mono
        &&& 0 <= self.correction
    }

    /// Seconds that have really passed since the last observation.
    pub open spec fn gap(self, elapsed: i64) -> int {
        if elapsed > self.last_mono {
            elapsed - self.last_mono
        } else {
            0
        }
    }

    /// How far the wall clock is from where it should be.
    pub open spec fn moved(self, wall: int, elapsed: i64) -> int {
        wall - (self.last_wall + self.gap(elapsed))
    }

    /// How far it may be without having jumped: a quarter of the gap, and never
    /// less than two seconds.
    pub open spec fn tolerance(self, elapsed: i64) -> int {
        if self.gap(elapsed) / 4 > 2 {
            self.gap(elapsed) / 4
        } else {
            2
        }
    }

    /// Has the wall clock jumped?
    pub open spec fn jumped(self, wall: int, elapsed: i64) -> bool {
        self.moved(wall, elapsed) > self.tolerance(elapsed) || -self.moved(wall, elapsed)
            > self.tolerance(elapsed)
    }

    /// The correction after this reading. A backward jump adds to it. A forward
    /// jump unwinds it, down to zero and no further.
    pub open spec fn corrected(self, wall: int, elapsed: i64) -> int {
        if !self.seen_any || !self.jumped(wall, elapsed) {
            self.correction as int
        } else if self.correction - self.moved(wall, elapsed) > 0 {
            self.correction - self.moved(wall, elapsed)
        } else {
            0
        }
    }

    /// The steps seen after this reading.
    pub open spec fn total_steps(self, wall: int, elapsed: i64) -> int {
        if !self.seen_any || !self.jumped(wall, elapsed) {
            self.stepped as int
        } else {
            self.stepped + self.moved(wall, elapsed)
        }
    }

    /// Readings whose sums fit.
    pub open spec fn can_observe(self, wall: int, elapsed: i64) -> bool {
        &&& 0 <= elapsed
        &&& self.last_wall + self.gap(elapsed) <= i64::MAX
        &&& i64::MIN < self.moved(wall, elapsed)
        &&& i64::MIN <= self.total_steps(wall, elapsed) <= i64::MAX
        &&& self.corrected(wall, elapsed) <= i64::MAX / 1000
    }

    /// What is remembered once this reading was taken.
    pub open spec fn after(self, wall: Moment, elapsed: i64) -> SeenClock {
        SeenClock {
            last_wall: wall.seconds,
            last_mono: elapsed,
            correction: self.corrected(wall.seconds as int, elapsed) as i64,
            stepped: self.total_steps(wall.seconds as int, elapsed) as i64,
            seen_any: true,
        }
    }

    /// The moment that the share goes by at this reading: the wall clock, never
    /// set back by a jump.
    pub open spec fn reading(self, wall: Moment, elapsed: i64) -> Moment {
        let seconds = wall.seconds + self.corrected(wall.seconds as int, elapsed);
        if self.seen_any && seconds <= LAST_SECOND {
            Moment { seconds: seconds as i64, nanos: wall.nanos }
        } else {
            wall
        }
    }

    /// Do the sums of these readings fit?
    pub fn fits(&self, wall: Moment, elapsed: i64) -> (r: bool)
        requires
            self.wf(),
            wall.wf(),
        ensures
            r == self.can_observe(wall.seconds as int, elapsed),
    {
        if elapsed < 0 {
            return false;
        }
        let gap: i64 = if elapsed > self.last_mono {
            elapsed - self.last_mono
        } else {
            0
        };
        if self.last_wall > 0 && gap > i64::MAX - self.last_wall {
            return false;
        }
        let expected: i64 = self.last_wall + gap;
        if expected > 0 && wall.seconds < 0 && wall.seconds < (i64::MIN + 1) + expected {
            return false;
        }
        let moved: i64 = wall.seconds - expected;
        let quarter: i64 = gap / 4;
        let tolerance: i64 = if quarter > 2 {
            quarter
        } else {
            2
        };
        if self.seen_any && (moved > tolerance || -moved > tolerance) {
            if moved > 0 && self.stepped > i64::MAX - moved {
                return false;
            }
            if moved < 0 && self.stepped < i64::MIN - moved {
                return false;
            }
            if moved < 0 && self.correction > i64::MAX / 1000 + moved {
                return false;
            }
            if moved >= 0 && self.correction - moved > i64::MAX / 1000 {
                return false;
            }
            true
        } else {
            self.correction <= i64::MAX / 1000
        }
    }

    /// Take a reading of the wall clock, `elapsed` seconds after the start, and
    /// answer the moment that the share goes by.
    pub fn observe(&mut self, wall: Moment, elapsed: i64) -> (r: Moment)
        requires
            old(self).wf(),
            wall.wf(),
            old(self).can_observe(wall.seconds as int, elapsed),
        ensures
            final(self).wf(),
            *final(self) == old(self).after(wall, elapsed),
            r == old(self).reading(wall, elapsed),
            r.wf(),
    {
        let wall_s: i64 = wall.seconds;
        if !self.seen_any {
            self.seen_any = true;
            self.last_wall = wall_s;
            self.last_mono = elapsed;
            return wall;
        }
        let gap: i64 = if elapsed > self.last_mono {
            elapsed - self.last_mono
        } else {
            0
        };
        // A quarter of the gap, never less than two seconds. Drift is a rate,
        // so it stays under any proportional bound wider than the rate itself.
        let quarter: i64 = gap / DRIFT_SHARE;
        let tolerance: i64 = if quarter > STEP_FLOOR {
            quarter
        } else {
            STEP_FLOOR
        };
        let moved: i64 = wall_s - (self.last_wall + gap);
        if moved > tolerance || -moved > tolerance {
            self.stepped = self.stepped + moved;
            if moved < 0 {
                // A backward jump buys nobody time.
                self.correction = self.correction - moved;
            } else {
                // A forward jump *unwinds* the correction, down to zero and no
                // further. Below zero it would become a way to buy time by
                // jumping forward and back.
                self.correction = if self.correction > moved {
                    self.correction - moved
                } else {
                    0
                };
            }
        }
        self.last_wall = wall_s;
        self.last_mono = elapsed;
        match add_seconds(wall, self.correction) {
            Some(m) => m,
            None => wall,
        }
    }
}

/// A reading is never behind the wall clock: no jump lengthens a ticket.
pub proof fn law_a_reading_is_never_behind_the_clock(c: SeenClock, wall: Moment, elapsed: i64)
    requires
        c.wf(),
    ensures
        c.reading(wall, elapsed).seconds >= wall.seconds,
{
}

/// After a backward jump the share reads what has really passed since the last
/// reading, and not what the wall clock says.
pub proof fn law_a_backward_jump_buys_nobody_time(c: SeenClock, wall: Moment, elapsed: i64)
    requires
        c.wf(),
        c.seen_any,
        c.jumped(wall.seconds as int, elapsed),
        c.moved(wall.seconds as int, elapsed) < 0,
        c.last_wall + c.correction + c.gap(elapsed) <= LAST_SECOND,
    ensures
        c.reading(wall, elapsed).seconds == c.last_wall + c.correction + c.gap(elapsed),
{
}

/// Drift is not a jump: readings that stay within a quarter of the gap, or two
/// seconds, are taken as they are and reported as nothing.
pub proof fn law_drift_is_not_a_jump(c: SeenClock, wall: Moment, elapsed: i64)
    requires
        c.wf(),
        c.seen_any,
        -c.tolerance(elapsed) <= c.moved(wall.seconds as int, elapsed) <= c.tolerance(elapsed),
    ensures
        c.corrected(wall.seconds as int, elapsed) == c.correction,
        c.total_steps(wall.seconds as int, elapsed) == c.stepped,
{
}

/// A clock that jumps back and is then put right leaves no correction behind,
/// and the two jumps cancel in what is reported.
pub proof fn law_a_clock_put_right_is_not_corrected(
    c: SeenClock,
    wrong: int,
    then: i64,
    right: int,
    now: i64,
)
    requires
        c.wf(),
        c.seen_any,
        c.correction == 0,
        c.stepped == 0,
        c.jumped(wrong, then),
        c.moved(wrong, then) < 0,
        c.can_observe(wrong, then),
        ({
            let d = SeenClock {
                last_wall: wrong as i64,
                last_mono: then,
                correction: c.corrected(wrong, then) as i64,
                stepped: c.total_steps(wrong, then) as i64,
                seen_any: true,
            };
            &&& i64::MIN <= wrong <= i64::MAX
            &&& d.jumped(right, now)
            &&& d.moved(right, now) == -c.moved(wrong, then)
        }),
    ensures
        ({
            let d = SeenClock {
                last_wall: wrong as i64,
                last_mono: then,
                correction: c.corrected(wrong, then) as i64,
                stepped: c.total_steps(wrong, then) as i64,
                seen_any: true,
            };
            d.corrected(right, now) == 0 && d.total_steps(right, now) == 0
        }),
{
}

} // verus!
