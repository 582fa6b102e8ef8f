//! When the video-refresh job runs, and which polling path it takes.

use crate::clock::utc_minute_second;
use vstd::prelude::*;

verus! {

/// Seconds to wait before the next refresh, from the current UTC minute and
/// second: an interval of 2 to 60 minutes is aligned so that the job fires
/// `delay` seconds after the start of each interval window of the hour;
/// any other interval is simply waited out.
pub open spec fn refresh_wait_spec(minute: int, second: int, interval: int, delay: int) -> int {
    if 1 < interval <= 60 {
        ((interval - 1 - minute % interval) * 60 + (60 - second) + delay) % (interval * 60)
    } else if 60 * interval <= u64::MAX {
        60 * interval
    } else {
        u64::MAX as int
    }
}

/// Whether this cycle may use the quota-metered path: the cycle is the
/// first of each `60 / per_hour`-minute period.
pub open spec fn heavy_path_spec(minute: int, second: int, per_hour: int, interval: int) -> bool {
    per_hour != 0 && (minute % (60int / per_hour)) + (if second == 0 { 0int } else { 1int }) < interval
}

/// Seconds to wait before the next refresh.
pub fn refresh_wait_secs(minute: u32, second: u32, interval: u64, delay: u64) -> (r: u64)
    requires
        minute < 60,
        second < 60,
    ensures
        r == refresh_wait_spec(minute as int, second as int, interval as int, delay as int),
{
    if 1 < interval && interval <= 60 {
        let m = minute as u64 % interval;
        assert(m < interval) by (nonlinear_arith)
            requires
                m == minute as u64 % interval,
                interval > 1,
        ;
        let window = interval * 60;
        let base = (interval - 1 - m) * 60 + (60 - second as u64);
        assert(base < window + 60) by (nonlinear_arith)
            requires
                base == (interval - 1 - m) * 60 + (60 - second as u64),
                window == interval * 60,
                m < interval,
                second < 60,
        ;
        let r = (base + delay % window) % window;
        proof {
            let total = base as int + delay as int;
            assert((base as int + delay as int % window as int) % window as int == total % window as int) by (nonlinear_arith)
                requires
                    window > 0,
                    total == base as int + delay as int,
            {
                vstd::arithmetic::div_mod::lemma_add_mod_noop(base as int, delay as int, window as int);
                vstd::arithmetic::div_mod::lemma_mod_twice(base as int, window as int);
            }
        }
        r
    } else if interval <= u64::MAX / 60 {
        60 * interval
    } else {
        u64::MAX
    }
}

/// Whether this refresh cycle uses the quota-metered path.
pub fn use_heavy_path(minute: u32, second: u32, per_hour: u64, interval: u64) -> (r: bool)
    requires
        per_hour <= 60,
    ensures
        r == heavy_path_spec(minute as int, second as int, per_hour as int, interval as int),
{
    if per_hour == 0 {
        return false;
    }
    let period = 60 / per_hour;
    assert(period >= 1) by (nonlinear_arith)
        requires
            period == 60u64 / per_hour,
            1 <= per_hour <= 60,
    ;
    let part = minute as u64 % period;
    let extra: u64 = if second == 0 { 0 } else { 1 };
    part + extra < interval
}

/// Seconds to wait before the next refresh, as of now.
pub fn refresh_wait_now(interval: u64, delay: u64) -> (r: u64)
    ensures
        exists|minute: u32, second: u32| minute < 60 && second < 60
            && r == #[trigger] refresh_wait_spec(minute as int, second as int, interval as int, delay as int),
{
    let (minute, second) = utc_minute_second();
    refresh_wait_secs(minute, second, interval, delay)
}

/// Whether the refresh cycle starting now uses the quota-metered path.
pub fn use_heavy_path_now(per_hour: u64, interval: u64) -> (r: bool)
    requires
        per_hour <= 60,
    ensures
        exists|minute: u32, second: u32| minute < 60 && second < 60
            && r == #[trigger] heavy_path_spec(minute as int, second as int, per_hour as int, interval as int),
{
    let (minute, second) = utc_minute_second();
    use_heavy_path(minute, second, per_hour, interval)
}

} // verus!
