//! Daily accounting of metered API calls.

use crate::clock::utc_day_number;
use vstd::prelude::*;

verus! {

/// Calls charged on `day` (a UTC date, as a day number).
pub struct QuotaCounter {
    pub day: i32,
    pub count: u32,
}

/// The counter after one call charged on `today`: it restarts when the day
/// has changed, else it grows by one (staying at its maximum once there).
pub open spec fn charged(c: QuotaCounter, today: i32) -> QuotaCounter {
    if c.day == today {
        QuotaCounter { day: today, count: if c.count < u32::MAX { (c.count + 1) as u32 } else { c.count } }
    } else {
        QuotaCounter { day: today, count: 1 }
    }
}

/// The counter never decreases within a day and restarts exactly when the
/// day changes.
pub proof fn lemma_quota_day_boundary(c: QuotaCounter, today: i32)
    ensures
        charged(c, today).day == today,
        c.day == today ==> charged(c, today).count >= c.count,
        c.day == today && c.count < u32::MAX ==> charged(c, today).count == c.count + 1,
        c.day != today ==> charged(c, today).count == 1,
{
}

impl QuotaCounter {
    /// A counter with nothing charged on `day`.
    pub fn new(day: i32) -> (r: QuotaCounter)
        ensures
            r.day == day,
            r.count == 0,
    {
        QuotaCounter { day, count: 0 }
    }

    /// Charges one call on `today`; returns the calls charged today.
    pub fn charge_on(&mut self, today: i32) -> (r: u32)
        ensures
            *final(self) == charged(*old(self), today),
            r == final(self).count,
    {
        if self.day != today {
            self.day = today;
            self.count = 1;
        } else if self.count < u32::MAX {
            self.count = self.count + 1;
        }
        self.count
    }

    /// Charges one call on the current UTC date; returns the calls charged today.
    pub fn charge(&mut self) -> (r: u32)
        ensures
            exists|today: i32| *final(self) == #[trigger] charged(*old(self), today),
            r == final(self).count,
    {
        let today = utc_day_number();
        self.charge_on(today)
    }
}

} // verus!
