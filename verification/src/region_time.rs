//! Region-to-timezone resolution and localized time arithmetic.
//!
//! Every delivery region maps to one fixed IANA timezone; the special
//! system-wide series maps to UTC instead of failing. Conversions
//! between UTC instants and local wall-clock fields are done by the
//! timezone database and enter the proofs only through the named
//! results [`local_civil`] and [`local_instant`].

use core::str::FromStr;

use chrono::Datelike;
use chrono::Timelike;
use vstd::prelude::*;

use crate::error::{RegionError, RegionResult};
use crate::text::str_eq;

verus! {

/// The timezones that delivery regions resolve to.
#[derive(Clone, Copy, Debug, PartialEq, Eq, Structural)]
pub enum Timezone {
    Oslo,
    Stockholm,
    Copenhagen,
    Helsinki,
    Tallinn,
    Riga,
    Vilnius,
    Vienna,
    Brussels,
    Luxembourg,
    Paris,
    Amsterdam,
    Utc,
}

impl Timezone {
    /// The IANA name of the timezone.
    pub open spec fn spec_iana_name(self) -> Seq<char> {
        match self {
            Timezone::Oslo => "Europe/Oslo"@,
            Timezone::Stockholm => "Europe/Stockholm"@,
            Timezone::Copenhagen => "Europe/Copenhagen"@,
            Timezone::Helsinki => "Europe/Helsinki"@,
            Timezone::Tallinn => "Europe/Tallinn"@,
            Timezone::Riga => "Europe/Riga"@,
            Timezone::Vilnius => "Europe/Vilnius"@,
            Timezone::Vienna => "Europe/Vienna"@,
            Timezone::Brussels => "Europe/Brussels"@,
            Timezone::Luxembourg => "Europe/Luxembourg"@,
            Timezone::Paris => "Europe/Paris"@,
            Timezone::Amsterdam => "Europe/Amsterdam"@,
            Timezone::Utc => "Etc/UTC"@,
        }
    }

    /// Returns the IANA name of the timezone.
    pub fn iana_name(&self) -> (r: &'static str)
        ensures
            r@ == self.spec_iana_name(),
    {
        match self {
            Timezone::Oslo => "Europe/Oslo",
            Timezone::Stockholm => "Europe/Stockholm",
            Timezone::Copenhagen => "Europe/Copenhagen",
            Timezone::Helsinki => "Europe/Helsinki",
            Timezone::Tallinn => "Europe/Tallinn",
            Timezone::Riga => "Europe/Riga",
            Timezone::Vilnius => "Europe/Vilnius",
            Timezone::Vienna => "Europe/Vienna",
            Timezone::Brussels => "Europe/Brussels",
            Timezone::Luxembourg => "Europe/Luxembourg",
            Timezone::Paris => "Europe/Paris",
            Timezone::Amsterdam => "Europe/Amsterdam",
            Timezone::Utc => "Etc/UTC",
        }
    }
}

/// The timezone of a region code: Norwegian, Swedish, Danish, Finnish,
/// Baltic and central-western regions map to their country's zone, the
/// system-wide series to UTC, and anything else is unsupported.
pub open spec fn spec_tz_from_region(s: Seq<char>) -> RegionResult<Timezone> {
    if s == "Oslo"@ || s == "Bergen"@ || s == "Kr.sand"@ || s == "Molde"@ || s == "Tr.heim"@ || s
        == "Tromsø"@ || s == "NO1"@ || s == "NO2"@ || s == "NO3"@ || s == "NO4"@ || s == "NO5"@ {
        Ok(Timezone::Oslo)
    } else if s == "SE1"@ || s == "SE2"@ || s == "SE3"@ || s == "SE4"@ {
        Ok(Timezone::Stockholm)
    } else if s == "DK1"@ || s == "DK2"@ {
        Ok(Timezone::Copenhagen)
    } else if s == "FI"@ {
        Ok(Timezone::Helsinki)
    } else if s == "EE"@ {
        Ok(Timezone::Tallinn)
    } else if s == "LV"@ {
        Ok(Timezone::Riga)
    } else if s == "LT"@ {
        Ok(Timezone::Vilnius)
    } else if s == "AT"@ {
        Ok(Timezone::Vienna)
    } else if s == "BE"@ {
        Ok(Timezone::Brussels)
    } else if s == "DE-LU"@ {
        Ok(Timezone::Luxembourg)
    } else if s == "FR"@ {
        Ok(Timezone::Paris)
    } else if s == "NL"@ {
        Ok(Timezone::Amsterdam)
    } else if s == "SYS"@ {
        Ok(Timezone::Utc)
    } else {
        Err(RegionError::RegionTzNotSupported)
    }
}

/// Resolves a region code to its timezone; unknown regions are
/// rejected, never defaulted.
pub fn tz_from_region(region: &str) -> (r: RegionResult<Timezone>)
    ensures
        r == spec_tz_from_region(region@),
{
    if str_eq(region, "Oslo") || str_eq(region, "Bergen") || str_eq(region, "Kr.sand") || str_eq(
        region,
        "Molde",
    ) || str_eq(region, "Tr.heim") || str_eq(region, "Tromsø") || str_eq(region, "NO1") || str_eq(
        region,
        "NO2",
    ) || str_eq(region, "NO3") || str_eq(region, "NO4") || str_eq(region, "NO5") {
        Ok(Timezone::Oslo)
    } else if str_eq(region, "SE1") || str_eq(region, "SE2") || str_eq(region, "SE3") || str_eq(
        region,
        "SE4",
    ) {
        Ok(Timezone::Stockholm)
    } else if str_eq(region, "DK1") || str_eq(region, "DK2") {
        Ok(Timezone::Copenhagen)
    } else if str_eq(region, "FI") {
        Ok(Timezone::Helsinki)
    } else if str_eq(region, "EE") {
        Ok(Timezone::Tallinn)
    } else if str_eq(region, "LV") {
        Ok(Timezone::Riga)
    } else if str_eq(region, "LT") {
        Ok(Timezone::Vilnius)
    } else if str_eq(region, "AT") {
        Ok(Timezone::Vienna)
    } else if str_eq(region, "BE") {
        Ok(Timezone::Brussels)
    } else if str_eq(region, "DE-LU") {
        Ok(Timezone::Luxembourg)
    } else if str_eq(region, "FR") {
        Ok(Timezone::Paris)
    } else if str_eq(region, "NL") {
        Ok(Timezone::Amsterdam)
    } else if str_eq(region, "SYS") {
        Ok(Timezone::Utc)
    } else {
        Err(RegionError::RegionTzNotSupported)
    }
}

/// The system-wide series resolves to UTC: its code collides with no
/// geographic region code.
pub proof fn lemma_sys_timezone()
    ensures
        spec_tz_from_region("SYS"@) == Ok::<Timezone, RegionError>(Timezone::Utc),
{
    reveal_strlit("SYS");
    reveal_strlit("Oslo");
    reveal_strlit("Bergen");
    reveal_strlit("Kr.sand");
    reveal_strlit("Molde");
    reveal_strlit("Tr.heim");
    reveal_strlit("Tromsø");
    reveal_strlit("NO1");
    reveal_strlit("NO2");
    reveal_strlit("NO3");
    reveal_strlit("NO4");
    reveal_strlit("NO5");
    reveal_strlit("SE1");
    reveal_strlit("SE2");
    reveal_strlit("SE3");
    reveal_strlit("SE4");
    reveal_strlit("DK1");
    reveal_strlit("DK2");
    reveal_strlit("FI");
    reveal_strlit("EE");
    reveal_strlit("LV");
    reveal_strlit("LT");
    reveal_strlit("AT");
    reveal_strlit("BE");
    reveal_strlit("DE-LU");
    reveal_strlit("FR");
    reveal_strlit("NL");
    assert("SYS"@.len() == 3);
    assert("Oslo"@.len() == 4);
    assert("Bergen"@.len() == 6);
    assert("Kr.sand"@.len() == 7);
    assert("Molde"@.len() == 5);
    assert("Tr.heim"@.len() == 7);
    assert("Tromsø"@.len() == 6);
    assert("FI"@.len() == 2);
    assert("EE"@.len() == 2);
    assert("LV"@.len() == 2);
    assert("LT"@.len() == 2);
    assert("AT"@.len() == 2);
    assert("BE"@.len() == 2);
    assert("DE-LU"@.len() == 5);
    assert("FR"@.len() == 2);
    assert("NL"@.len() == 2);
    assert("SYS"@ != "NO1"@) by {
        assert("SYS"@[0] != "NO1"@[0]);
    }
    assert("SYS"@ != "NO2"@) by {
        assert("SYS"@[0] != "NO2"@[0]);
    }
    assert("SYS"@ != "NO3"@) by {
        assert("SYS"@[0] != "NO3"@[0]);
    }
    assert("SYS"@ != "NO4"@) by {
        assert("SYS"@[0] != "NO4"@[0]);
    }
    assert("SYS"@ != "NO5"@) by {
        assert("SYS"@[0] != "NO5"@[0]);
    }
    assert("SYS"@ != "SE1"@) by {
        assert("SYS"@[1] != "SE1"@[1]);
    }
    assert("SYS"@ != "SE2"@) by {
        assert("SYS"@[1] != "SE2"@[1]);
    }
    assert("SYS"@ != "SE3"@) by {
        assert("SYS"@[1] != "SE3"@[1]);
    }
    assert("SYS"@ != "SE4"@) by {
        assert("SYS"@[1] != "SE4"@[1]);
    }
    assert("SYS"@ != "DK1"@) by {
        assert("SYS"@[0] != "DK1"@[0]);
    }
    assert("SYS"@ != "DK2"@) by {
        assert("SYS"@[0] != "DK2"@[0]);
    }
    assert("SYS"@ == "SYS"@);
    assert(spec_tz_from_region("SYS"@) == Ok::<Timezone, RegionError>(Timezone::Utc));
}

/// The local calendar fields (year, month, day, hour of day) of a UTC
/// instant, given in seconds, in the zone named by an IANA string; no
/// result for an unknown zone name or an instant outside the supported
/// range. A fixed timezone database makes this a function of its
/// arguments.
pub uninterp spec fn local_civil(tz: Seq<char>, ts: int) -> Option<(int, int, int, int)>;

/// The UTC instant, in seconds, at which a local wall clock in the zone
/// named by an IANA string shows the given year, month, day, hour,
/// minute and second; no result for an unknown zone name, invalid
/// fields, or a local time that a transition skips or repeats. A fixed
/// timezone database makes this a function of its arguments.
pub uninterp spec fn local_instant(
    tz: Seq<char>,
    y: int,
    mo: int,
    d: int,
    h: int,
    mi: int,
    s: int,
) -> Option<int>;

/// Relies on `chrono::DateTime::with_timezone` with a `chrono_tz::Tz`
/// parsed from the IANA name, and on the `Datelike`/`Timelike`
/// accessors: month is 1 to 12, day 1 to 31, hour 0 to 23, as the
/// chrono documentation states.
#[verifier::external_body]
pub fn local_civil_lookup(tz_name: &str, ts: i64) -> (r: Option<(i32, u32, u32, u32)>)
    ensures
        match r {
            Some(t) => local_civil(tz_name@, ts as int) == Some(
                (t.0 as int, t.1 as int, t.2 as int, t.3 as int),
            ) && 1 <= t.1 <= 12 && 1 <= t.2 <= 31 && t.3 < 24,
            None => local_civil(tz_name@, ts as int) is None,
        },
{
    let tz = match chrono_tz::Tz::from_str(tz_name) {
        Ok(tz) => tz,
        Err(_) => return None,
    };
    let utc = match chrono::DateTime::from_timestamp(ts, 0) {
        Some(u) => u,
        None => return None,
    };
    let loc = utc.with_timezone(&tz);
    Some((loc.year(), loc.month(), loc.day(), loc.hour()))
}

/// Relies on `chrono::NaiveDateTime::and_local_timezone` with a
/// `chrono_tz::Tz` parsed from the IANA name: the single instant at
/// which the local clock shows the given fields, if there is exactly
/// one. The timestamp lies within chrono's documented range of roughly
/// 262,000 years around the epoch, so it is bounded by 2^46 seconds.
#[verifier::external_body]
pub fn local_instant_lookup(
    tz_name: &str,
    y: i32,
    mo: u32,
    d: u32,
    h: u32,
    mi: u32,
    s: u32,
) -> (r: Option<i64>)
    ensures
        match r {
            Some(t) => local_instant(
                tz_name@,
                y as int,
                mo as int,
                d as int,
                h as int,
                mi as int,
                s as int,
            ) == Some(t as int) && -0x4000_0000_0000 < t < 0x4000_0000_0000,
            None => local_instant(
                tz_name@,
                y as int,
                mo as int,
                d as int,
                h as int,
                mi as int,
                s as int,
            ) is None,
        },
{
    let tz = match chrono_tz::Tz::from_str(tz_name) {
        Ok(tz) => tz,
        Err(_) => return None,
    };
    let ndt = chrono::NaiveDate::from_ymd_opt(y, mo, d)?.and_hms_opt(h, mi, s)?;
    Some(ndt.and_local_timezone(tz).single()?.timestamp())
}

} // verus!
