//! The delivery regions of the day-ahead price portal.

use vstd::prelude::*;

use crate::text::str_eq;

verus! {

/// A delivery region of the day-ahead market.
#[derive(Clone, Copy, Debug, PartialEq, Eq, Structural)]
pub enum Region {
    EE,
    LT,
    LV,
    AT,
    BE,
    FR,
    GER,
    NL,
    PL,
    DK1,
    DK2,
    FI,
    NO1,
    NO2,
    NO3,
    NO4,
    NO5,
    SE1,
    SE2,
    SE3,
    SE4,
    BG,
    TEL,
    SYS,
}

/// The region codes the portal accepts in a query.
pub open spec fn spec_region_supported(s: Seq<char>) -> bool {
    ||| s == "EE"@
    ||| s == "LT"@
    ||| s == "LV"@
    ||| s == "AT"@
    ||| s == "BE"@
    ||| s == "FR"@
    ||| s == "GER"@
    ||| s == "NL"@
    ||| s == "PL"@
    ||| s == "DK1"@
    ||| s == "DK2"@
    ||| s == "FI"@
    ||| s == "NO1"@
    ||| s == "NO2"@
    ||| s == "NO3"@
    ||| s == "NO4"@
    ||| s == "NO5"@
    ||| s == "SE1"@
    ||| s == "SE2"@
    ||| s == "SE3"@
    ||| s == "SE4"@
    ||| s == "BG"@
    ||| s == "TEL"@
    ||| s == "SYS"@
}

/// Whether a region code may appear in a portal query.
pub fn region_is_supported(region: &str) -> (r: bool)
    ensures
        r == spec_region_supported(region@),
{
    str_eq(region, "EE") || str_eq(region, "LT") || str_eq(region, "LV") || str_eq(region, "AT")
        || str_eq(region, "BE") || str_eq(region, "FR") || str_eq(region, "GER") || str_eq(
        region,
        "NL",
    ) || str_eq(region, "PL") || str_eq(region, "DK1") || str_eq(region, "DK2") || str_eq(
        region,
        "FI",
    ) || str_eq(region, "NO1") || str_eq(region, "NO2") || str_eq(region, "NO3") || str_eq(
        region,
        "NO4",
    ) || str_eq(region, "NO5") || str_eq(region, "SE1") || str_eq(region, "SE2") || str_eq(
        region,
        "SE3",
    ) || str_eq(region, "SE4") || str_eq(region, "BG") || str_eq(region, "TEL") || str_eq(
        region,
        "SYS",
    )
}

} // verus!
