//! The currencies the day-ahead price portal can quote in.

use vstd::prelude::*;

use crate::text::str_eq;

verus! {

/// A currency the portal can be asked to quote prices in.
#[derive(Clone, Copy, Debug, PartialEq, Eq, Structural)]
pub enum Currency {
    BGN,
    EUR,
    DKK,
    NOK,
    PLN,
    RON,
    SEK,
}

/// The currency codes the portal accepts in a query.
pub open spec fn spec_currency_supported(s: Seq<char>) -> bool {
    ||| s == "BGN"@
    ||| s == "EUR"@
    ||| s == "DKK"@
    ||| s == "NOK"@
    ||| s == "PLN"@
    ||| s == "RON"@
    ||| s == "SEK"@
}

/// Whether a currency code may appear in a portal query.
pub fn currency_is_supported(currency: &str) -> (r: bool)
    ensures
        r == spec_currency_supported(currency@),
{
    str_eq(currency, "BGN") || str_eq(currency, "EUR") || str_eq(currency, "DKK") || str_eq(
        currency,
        "NOK",
    ) || str_eq(currency, "PLN") || str_eq(currency, "RON") || str_eq(currency, "SEK")
}

} // verus!
