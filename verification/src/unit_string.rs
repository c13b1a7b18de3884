//! The feed's declared unit token, of the form `"<CUR>/<PWR>"`.

use vstd::prelude::*;

use crate::error::{ElspotError, ElspotResult};
use crate::text::str_eq;

verus! {

/// The unit tokens the hourly feed may declare.
pub open spec fn spec_unit_string_ok(s: Seq<char>) -> bool {
    ||| s == "EUR/MWh"@
    ||| s == "DKK/MWh"@
    ||| s == "NOK/MWh"@
    ||| s == "SEK/MWh"@
}

/// Accepts exactly the supported unit tokens.
pub fn test_unit_string(unit_string: &str) -> (r: ElspotResult<()>)
    ensures
        r == if spec_unit_string_ok(unit_string@) {
            Ok::<(), ElspotError>(())
        } else {
            Err::<(), ElspotError>(ElspotError::MarketdataPage10InvalidUnitString)
        },
{
    if str_eq(unit_string, "EUR/MWh") || str_eq(unit_string, "DKK/MWh") || str_eq(
        unit_string,
        "NOK/MWh",
    ) || str_eq(unit_string, "SEK/MWh") {
        Ok(())
    } else {
        Err(ElspotError::MarketdataPage10InvalidUnitString)
    }
}

/// A supported unit token is seven characters long, its first three
/// characters name a supported currency, and its last three name the
/// MWh power unit.
pub proof fn lemma_unit_token_parses(u: Seq<char>)
    requires
        spec_unit_string_ok(u),
    ensures
        u.len() == 7,
        crate::units::Currency::spec_new(u.subrange(0, 3)) is Ok,
        crate::units::Power::spec_new(u.subrange(4, 7)) == Ok::<_, crate::error::UnitError>(
            crate::units::Power::MWh,
        ),
{
    reveal_strlit("MWh");
    if u == "EUR/MWh"@ {
        reveal_strlit("EUR/MWh");
        reveal_strlit("EUR");
        assert(u.subrange(0, 3) =~= "EUR"@);
        assert(u.subrange(4, 7) =~= "MWh"@);
    } else if u == "DKK/MWh"@ {
        reveal_strlit("DKK/MWh");
        reveal_strlit("DKK");
        assert(u.subrange(0, 3) =~= "DKK"@);
        assert(u.subrange(4, 7) =~= "MWh"@);
    } else if u == "NOK/MWh"@ {
        reveal_strlit("NOK/MWh");
        reveal_strlit("NOK");
        assert(u.subrange(0, 3) =~= "NOK"@);
        assert(u.subrange(4, 7) =~= "MWh"@);
    } else {
        reveal_strlit("SEK/MWh");
        reveal_strlit("SEK");
        assert(u.subrange(0, 3) =~= "SEK"@);
        assert(u.subrange(4, 7) =~= "MWh"@);
    }
}

/// Returns the currency code: the first three characters of the token.
pub fn extract_currency_unit(unit_string: &str) -> (r: &str)
    requires
        unit_string@.len() >= 3,
    ensures
        r@ == unit_string@.subrange(0, 3),
{
    unit_string.substring_char(0, 3)
}

/// Returns the power unit: the last three characters of the token.
pub fn extract_power_unit(unit_string: &str) -> (r: &str)
    requires
        unit_string@.len() >= 3,
    ensures
        r@ == unit_string@.subrange(
            unit_string@.len() - 3,
            unit_string@.len() as int,
        ),
{
    let n = unit_string.unicode_len();
    unit_string.substring_char(n - 3, n)
}

} // verus!
