//! Where the library reads the time: the wall clock, in one place, and a
//! fixed clock for runs that must not depend on it.

use vstd::prelude::*;
use crate::time::{timestamp_parts_ok, Timestamp};

verus! {

/// A source of the current instant.
pub trait Clock {
    /// The current instant.
    fn now(&self) -> Timestamp;
}

/// The system's wall clock.
#[derive(Clone, Copy, Debug, Default)]
pub struct SystemClock;

/// The wall clock's reading, as whole seconds from the epoch and a signed
/// sub-second part, or `None` when the clock is outside the range a
/// timestamp can hold.
///
/// Trusted: converts `std::time::SystemTime::now` with jiff's
/// `Timestamp::try_from`, which fails rather than panics on a clock outside
/// its range, and takes `as_second` and `subsec_nanosecond`. The reading
/// depends on the machine, so nothing is claimed of its value; the claim is
/// only that the parts are those of a valid jiff timestamp, whose
/// constructors keep the seconds within range, the nanoseconds within one
/// second and of the seconds' sign, and no nanoseconds at the earliest
/// second.
#[verifier::external_body]
fn wall_clock_parts() -> (r: Option<(i64, i32)>)
    ensures
        r matches Some(p) ==> timestamp_parts_ok(p.0, p.1),
{
    match jiff::Timestamp::try_from(std::time::SystemTime::now()) {
        Ok(now) => Some((now.as_second(), now.subsec_nanosecond())),
        Err(_) => None,
    }
}

impl SystemClock {
    /// The instant a wall-clock reading names: the reading itself when the
    /// clock is within range, the epoch when it is not.
    pub fn instant_of(reading: Option<(i64, i32)>) -> (t: Timestamp)
        requires
            reading matches Some(p) ==> timestamp_parts_ok(p.0, p.1),
        ensures
            t.wf(),
            match reading {
                Some(p) => t.spec_second() == p.0 && t.spec_nanosecond() == p.1,
                None => t.spec_second() == 0 && t.spec_nanosecond() == 0,
            },
    {
        match reading {
            Some((second, nanosecond)) => match Timestamp::from_parts(second, nanosecond) {
                Some(t) => t,
                None => {
                    proof {
                        assert(false);
                    }
                    Timestamp::unix_epoch()
                },
            },
            None => Timestamp::unix_epoch(),
        }
    }
}

impl Clock for SystemClock {
    /// The wall clock, read once; a clock outside the range a timestamp can
    /// hold reads as the epoch.
    fn now(&self) -> (r: Timestamp)
        ensures
            r.wf(),
    {
        SystemClock::instant_of(wall_clock_parts())
    }
}

/// A clock that always reads the same instant.
#[derive(Clone, Copy, Debug)]
pub struct FixedClock(pub Timestamp);

impl Default for FixedClock {
    fn default() -> (r: FixedClock)
        ensures
            r.0.spec_second() == 0,
            r.0.spec_nanosecond() == 0,
    {
        FixedClock(Timestamp::unix_epoch())
    }
}

impl Clock for FixedClock {
    fn now(&self) -> (r: Timestamp)
        ensures
            r == self.0,
    {
        self.0
    }
}

} // verus!
