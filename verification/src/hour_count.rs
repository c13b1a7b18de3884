//! How many local hours a calendar date contains in a region.
//!
//! A date has 24 hours except when it crosses a daylight-saving
//! transition: the spring-forward day has 23, the fall-back day 25.
//! The feed gives no flag for this, so the count is derived from the
//! timezone alone: starting at local midnight, adding 23 or 25 hours
//! lands on the next midnight exactly on such days.

use vstd::prelude::*;

use crate::dates::Date;
use crate::error::{RegionError, RegionResult};
use crate::region_time::{
    local_civil, local_civil_lookup, local_instant, local_instant_lookup, spec_tz_from_region,
    tz_from_region,
};
use crate::text::str_eq;

verus! {

/// The number of local hours in one calendar date.
#[derive(Clone, Copy, Debug, PartialEq, Eq, Structural)]
pub enum Hours {
    TwentyThree,
    TwentyFour,
    TwentyFive,
}

/// Whether the local hour of day of the instant is zero in the zone.
pub open spec fn hour_of_day_is_zero(tz: Seq<char>, ts: int) -> bool {
    match local_civil(tz, ts) {
        Some(t) => t.3 == 0,
        None => false,
    }
}

impl Hours {
    /// The count as a number.
    pub open spec fn spec_count(self) -> int {
        match self {
            Hours::TwentyThree => 23,
            Hours::TwentyFour => 24,
            Hours::TwentyFive => 25,
        }
    }

    /// Returns the count as a number.
    pub fn count(&self) -> (r: u8)
        ensures
            r == self.spec_count(),
    {
        match self {
            Hours::TwentyThree => 23,
            Hours::TwentyFour => 24,
            Hours::TwentyFive => 25,
        }
    }

    /// The hour count of the day that starts at local midnight `mid`:
    /// 23 if adding 23 hours reaches the next midnight, 25 if adding 25
    /// hours does, otherwise the ordinary 24.
    pub open spec fn spec_for_midnight(tz: Seq<char>, mid: int) -> Hours {
        if hour_of_day_is_zero(tz, mid + 23 * 3600) {
            Hours::TwentyThree
        } else if hour_of_day_is_zero(tz, mid + 25 * 3600) {
            Hours::TwentyFive
        } else {
            Hours::TwentyFour
        }
    }

    /// The hour count of a date in a region: the region resolves to its
    /// timezone (the system-wide series counts against the exchange's
    /// home zone), local midnight of the date is fixed, and the count
    /// follows [`Hours::spec_for_midnight`].
    pub open spec fn spec_new(date: Date, region: Seq<char>) -> RegionResult<Hours> {
        let reg = if region == "SYS"@ {
            "Oslo"@
        } else {
            region
        };
        match spec_tz_from_region(reg) {
            Err(e) => Err(e),
            Ok(tz) => {
                let name = tz.spec_iana_name();
                match local_instant(
                    name,
                    date.year as int,
                    date.month as int,
                    date.day as int,
                    0,
                    0,
                    0,
                ) {
                    None => Err(RegionError::RegionMidnightUnresolved),
                    Some(mid) => Ok(Hours::spec_for_midnight(name, mid)),
                }
            },
        }
    }

    /// Computes how many local hours the date contains in the region.
    pub fn new(d: &Date, region: &str) -> (r: RegionResult<Hours>)
        ensures
            r == Hours::spec_new(*d, region@),
    {
        let reg: &str = if str_eq(region, "SYS") {
            "Oslo"
        } else {
            region
        };
        let tz = match tz_from_region(reg) {
            Ok(t) => t,
            Err(e) => {
                return Err(e);
            },
        };
        let name = tz.iana_name();
        let mid = match local_instant_lookup(name, d.year, d.month, d.day, 0, 0, 0) {
            Some(m) => m,
            None => {
                return Err(RegionError::RegionMidnightUnresolved);
            },
        };
        let at23 = local_civil_lookup(name, mid + 23 * 3600);
        let zero23 = match at23 {
            Some(t) => t.3 == 0,
            None => false,
        };
        if zero23 {
            return Ok(Hours::TwentyThree);
        }
        let at25 = local_civil_lookup(name, mid + 25 * 3600);
        let zero25 = match at25 {
            Some(t) => t.3 == 0,
            None => false,
        };
        if zero25 {
            return Ok(Hours::TwentyFive);
        }
        Ok(Hours::TwentyFour)
    }
}

} // verus!
