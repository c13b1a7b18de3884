//! Currency, power and market-time units, and the unit conversions on
//! price records.
//!
//! Conversions never touch a numeric type: a currency moves between its
//! full unit and its sub-unit by a two-place decimal shift, and a price
//! moves between MWh and kWh by a three-place shift, both exact.

use vstd::prelude::*;

use crate::decimal::{spec_shift_left, spec_shift_right};
use crate::decimal::{move_comma_left, move_comma_right};
use crate::elspot::{Price, PriceModel};
use crate::error::{UnitError, UnitResult};
use crate::text::str_eq;

verus! {

/// Whether a currency value is quoted in the main unit or in its
/// hundredth sub-unit.
#[derive(Clone, Copy, Debug, PartialEq, Eq, Structural)]
pub enum CurrencyUnit {
    Full,
    Fraction,
}

/// A supported currency together with its current denomination.
#[derive(Clone, Copy, Debug, PartialEq, Eq, Structural)]
pub enum Currency {
    EUR(CurrencyUnit),
    DKK(CurrencyUnit),
    NOK(CurrencyUnit),
    PLN(CurrencyUnit),
    RON(CurrencyUnit),
    SEK(CurrencyUnit),
    BGN(CurrencyUnit),
}

impl Currency {
    /// The currency a code names, quoted in its full unit.
    pub open spec fn spec_new(s: Seq<char>) -> UnitResult<Currency> {
        if s == "EUR"@ {
            Ok(Currency::EUR(CurrencyUnit::Full))
        } else if s == "DKK"@ {
            Ok(Currency::DKK(CurrencyUnit::Full))
        } else if s == "NOK"@ {
            Ok(Currency::NOK(CurrencyUnit::Full))
        } else if s == "PLN"@ {
            Ok(Currency::PLN(CurrencyUnit::Full))
        } else if s == "RON"@ {
            Ok(Currency::RON(CurrencyUnit::Full))
        } else if s == "SEK"@ {
            Ok(Currency::SEK(CurrencyUnit::Full))
        } else if s == "BGN"@ {
            Ok(Currency::BGN(CurrencyUnit::Full))
        } else {
            Err(UnitError::InvalidCurrencyUnit)
        }
    }

    /// Resolves a currency code to its full-unit currency; any other
    /// string is rejected.
    pub fn new(currency: &str) -> (r: UnitResult<Currency>)
        ensures
            r == Self::spec_new(currency@),
    {
        if str_eq(currency, "EUR") {
            Ok(Currency::EUR(CurrencyUnit::Full))
        } else if str_eq(currency, "DKK") {
            Ok(Currency::DKK(CurrencyUnit::Full))
        } else if str_eq(currency, "NOK") {
            Ok(Currency::NOK(CurrencyUnit::Full))
        } else if str_eq(currency, "PLN") {
            Ok(Currency::PLN(CurrencyUnit::Full))
        } else if str_eq(currency, "RON") {
            Ok(Currency::RON(CurrencyUnit::Full))
        } else if str_eq(currency, "SEK") {
            Ok(Currency::SEK(CurrencyUnit::Full))
        } else if str_eq(currency, "BGN") {
            Ok(Currency::BGN(CurrencyUnit::Full))
        } else {
            Err(UnitError::InvalidCurrencyUnit)
        }
    }

    /// The denomination tag of this currency.
    pub open spec fn spec_unit(self) -> CurrencyUnit {
        match self {
            Currency::EUR(u) => u,
            Currency::DKK(u) => u,
            Currency::NOK(u) => u,
            Currency::PLN(u) => u,
            Currency::RON(u) => u,
            Currency::SEK(u) => u,
            Currency::BGN(u) => u,
        }
    }

    /// The same currency quoted in the given denomination.
    pub open spec fn spec_with_unit(self, u: CurrencyUnit) -> Currency {
        match self {
            Currency::EUR(_) => Currency::EUR(u),
            Currency::DKK(_) => Currency::DKK(u),
            Currency::NOK(_) => Currency::NOK(u),
            Currency::PLN(_) => Currency::PLN(u),
            Currency::RON(_) => Currency::RON(u),
            Currency::SEK(_) => Currency::SEK(u),
            Currency::BGN(_) => Currency::BGN(u),
        }
    }

    /// Re-tags the currency as quoted in its sub-unit.
    pub fn to_fraction(&mut self)
        ensures
            *final(self) == old(self).spec_with_unit(CurrencyUnit::Fraction),
    {
        *self = match self {
            Currency::EUR(_) => Currency::EUR(CurrencyUnit::Fraction),
            Currency::DKK(_) => Currency::DKK(CurrencyUnit::Fraction),
            Currency::NOK(_) => Currency::NOK(CurrencyUnit::Fraction),
            Currency::PLN(_) => Currency::PLN(CurrencyUnit::Fraction),
            Currency::RON(_) => Currency::RON(CurrencyUnit::Fraction),
            Currency::SEK(_) => Currency::SEK(CurrencyUnit::Fraction),
            Currency::BGN(_) => Currency::BGN(CurrencyUnit::Fraction),
        };
    }

    /// Re-tags the currency as quoted in its full unit.
    pub fn to_full(&mut self)
        ensures
            *final(self) == old(self).spec_with_unit(CurrencyUnit::Full),
    {
        *self = match self {
            Currency::EUR(_) => Currency::EUR(CurrencyUnit::Full),
            Currency::DKK(_) => Currency::DKK(CurrencyUnit::Full),
            Currency::NOK(_) => Currency::NOK(CurrencyUnit::Full),
            Currency::PLN(_) => Currency::PLN(CurrencyUnit::Full),
            Currency::RON(_) => Currency::RON(CurrencyUnit::Full),
            Currency::SEK(_) => Currency::SEK(CurrencyUnit::Full),
            Currency::BGN(_) => Currency::BGN(CurrencyUnit::Full),
        };
    }

    /// Whether the currency is quoted in its sub-unit.
    pub fn is_fraction(&self) -> (r: bool)
        ensures
            r == (self.spec_unit() == CurrencyUnit::Fraction),
    {
        match self {
            Currency::EUR(u) => matches!(u, CurrencyUnit::Fraction),
            Currency::DKK(u) => matches!(u, CurrencyUnit::Fraction),
            Currency::NOK(u) => matches!(u, CurrencyUnit::Fraction),
            Currency::PLN(u) => matches!(u, CurrencyUnit::Fraction),
            Currency::RON(u) => matches!(u, CurrencyUnit::Fraction),
            Currency::SEK(u) => matches!(u, CurrencyUnit::Fraction),
            Currency::BGN(u) => matches!(u, CurrencyUnit::Fraction),
        }
    }

    /// Whether the currency is quoted in its full unit.
    pub fn is_full(&self) -> (r: bool)
        ensures
            r == (self.spec_unit() == CurrencyUnit::Full),
    {
        match self {
            Currency::EUR(u) => matches!(u, CurrencyUnit::Full),
            Currency::DKK(u) => matches!(u, CurrencyUnit::Full),
            Currency::NOK(u) => matches!(u, CurrencyUnit::Full),
            Currency::PLN(u) => matches!(u, CurrencyUnit::Full),
            Currency::RON(u) => matches!(u, CurrencyUnit::Full),
            Currency::SEK(u) => matches!(u, CurrencyUnit::Full),
            Currency::BGN(u) => matches!(u, CurrencyUnit::Full),
        }
    }

    /// The three-letter code of the currency.
    pub open spec fn spec_country_code(self) -> Seq<char> {
        match self {
            Currency::EUR(_) => "EUR"@,
            Currency::DKK(_) => "DKK"@,
            Currency::NOK(_) => "NOK"@,
            Currency::PLN(_) => "PLN"@,
            Currency::RON(_) => "RON"@,
            Currency::SEK(_) => "SEK"@,
            Currency::BGN(_) => "BGN"@,
        }
    }

    /// Returns the three-letter code of the currency.
    pub fn country_code_as_str(&self) -> (r: &'static str)
        ensures
            r@ == self.spec_country_code(),
    {
        match self {
            Currency::EUR(_) => "EUR",
            Currency::DKK(_) => "DKK",
            Currency::NOK(_) => "NOK",
            Currency::PLN(_) => "PLN",
            Currency::RON(_) => "RON",
            Currency::SEK(_) => "SEK",
            Currency::BGN(_) => "BGN",
        }
    }

    /// The display name of the current denomination.
    pub open spec fn spec_label(self) -> Seq<char> {
        match self {
            Currency::EUR(CurrencyUnit::Full) => "Eur."@,
            Currency::EUR(CurrencyUnit::Fraction) => "Cent"@,
            Currency::DKK(CurrencyUnit::Full) => "Kr."@,
            Currency::DKK(CurrencyUnit::Fraction) => "Øre"@,
            Currency::NOK(CurrencyUnit::Full) => "Kr."@,
            Currency::NOK(CurrencyUnit::Fraction) => "Øre"@,
            Currency::PLN(CurrencyUnit::Full) => "zł."@,
            Currency::PLN(CurrencyUnit::Fraction) => "grosz"@,
            Currency::RON(CurrencyUnit::Full) => "leu."@,
            Currency::RON(CurrencyUnit::Fraction) => "bani"@,
            Currency::SEK(CurrencyUnit::Full) => "Kr."@,
            Currency::SEK(CurrencyUnit::Fraction) => "Öre"@,
            Currency::BGN(CurrencyUnit::Full) => "lev."@,
            Currency::BGN(CurrencyUnit::Fraction) => "stotinka"@,
        }
    }

    /// Returns the display name of the current denomination.
    pub fn as_str(&self) -> (r: &'static str)
        ensures
            r@ == self.spec_label(),
    {
        match self {
            Currency::EUR(CurrencyUnit::Full) => "Eur.",
            Currency::EUR(CurrencyUnit::Fraction) => "Cent",
            Currency::DKK(CurrencyUnit::Full) => "Kr.",
            Currency::DKK(CurrencyUnit::Fraction) => "Øre",
            Currency::NOK(CurrencyUnit::Full) => "Kr.",
            Currency::NOK(CurrencyUnit::Fraction) => "Øre",
            Currency::PLN(CurrencyUnit::Full) => "zł.",
            Currency::PLN(CurrencyUnit::Fraction) => "grosz",
            Currency::RON(CurrencyUnit::Full) => "leu.",
            Currency::RON(CurrencyUnit::Fraction) => "bani",
            Currency::SEK(CurrencyUnit::Full) => "Kr.",
            Currency::SEK(CurrencyUnit::Fraction) => "Öre",
            Currency::BGN(CurrencyUnit::Full) => "lev.",
            Currency::BGN(CurrencyUnit::Fraction) => "stotinka",
        }
    }
}

/// Market time unit: the length of one delivery interval.
#[derive(Clone, Copy, Debug, PartialEq, Eq, Structural)]
pub enum Mtu {
    Sixty,
    Fifteen,
}

impl Mtu {
    /// The market time unit between two UTC instants: a whole number of
    /// minutes equal to fifteen or to sixty, anything else rejected.
    pub open spec fn spec_new(f: int, t: int) -> UnitResult<Mtu> {
        if 900 <= t - f < 960 {
            Ok(Mtu::Fifteen)
        } else if 3600 <= t - f < 3660 {
            Ok(Mtu::Sixty)
        } else {
            Err(UnitError::InvalidMtuUnit)
        }
    }

    /// Derives the market time unit from the delivery interval bounds,
    /// given as UTC instants in seconds.
    pub fn new(f: i64, t: i64) -> (r: UnitResult<Mtu>)
        ensures
            r == Mtu::spec_new(f as int, t as int),
    {
        match t.checked_sub(f) {
            Some(d) => if 900 <= d && d < 960 {
                Ok(Mtu::Fifteen)
            } else if 3600 <= d && d < 3660 {
                Ok(Mtu::Sixty)
            } else {
                Err(UnitError::InvalidMtuUnit)
            },
            None => Err(UnitError::InvalidMtuUnit),
        }
    }

    /// The display name of the unit.
    pub open spec fn spec_label(self) -> Seq<char> {
        match self {
            Mtu::Sixty => "60 minutes"@,
            Mtu::Fifteen => "15 minutes"@,
        }
    }

    /// Returns the display name of the unit.
    pub fn as_str(&self) -> (r: &'static str)
        ensures
            r@ == self.spec_label(),
    {
        match self {
            Mtu::Sixty => "60 minutes",
            Mtu::Fifteen => "15 minutes",
        }
    }
}

/// Power unit a price is quoted against.
#[allow(non_camel_case_types)]
#[derive(Clone, Copy, Debug, PartialEq, Eq, Structural)]
pub enum Power {
    MWh,
    kWh,
}

impl Power {
    /// The power unit a token names.
    pub open spec fn spec_new(s: Seq<char>) -> UnitResult<Power> {
        if s == "MWh"@ {
            Ok(Power::MWh)
        } else if s == "kWh"@ {
            Ok(Power::kWh)
        } else {
            Err(UnitError::InvalidPowerUnit)
        }
    }

    /// Resolves a power-unit token; any other string is rejected.
    pub fn new(pwr_unit: &str) -> (r: UnitResult<Power>)
        ensures
            r == Self::spec_new(pwr_unit@),
    {
        if str_eq(pwr_unit, "MWh") {
            Ok(Power::MWh)
        } else if str_eq(pwr_unit, "kWh") {
            Ok(Power::kWh)
        } else {
            Err(UnitError::InvalidPowerUnit)
        }
    }

    /// Re-tags the unit as kWh.
    pub fn to_kwh(&mut self)
        ensures
            *final(self) == Power::kWh,
    {
        *self = Power::kWh;
    }

    /// Re-tags the unit as MWh.
    pub fn to_mwh(&mut self)
        ensures
            *final(self) == Power::MWh,
    {
        *self = Power::MWh;
    }

    /// Whether the unit is MWh.
    pub fn is_mwh(&self) -> (r: bool)
        ensures
            r == (*self == Power::MWh),
    {
        matches!(self, Power::MWh)
    }

    /// Whether the unit is kWh.
    pub fn is_kwh(&self) -> (r: bool)
        ensures
            r == (*self == Power::kWh),
    {
        matches!(self, Power::kWh)
    }

    /// Returns the display name of the unit.
    pub fn as_str(&self) -> (r: &'static str)
        ensures
            *self == Power::MWh ==> r@ == "MWh"@,
            *self == Power::kWh ==> r@ == "kWh"@,
    {
        match self {
            Power::MWh => "MWh",
            Power::kWh => "kWh",
        }
    }
}

/// A price after conversion to the currency sub-unit: the value shifts
/// two places right and the currency is re-tagged; a price already in
/// the sub-unit is left alone.
pub open spec fn spec_to_currency_fraction(p: PriceModel) -> PriceModel {
    if p.currency_unit.spec_unit() == CurrencyUnit::Full {
        PriceModel {
            value: spec_shift_right(p.value, 2),
            currency_unit: p.currency_unit.spec_with_unit(CurrencyUnit::Fraction),
            ..p
        }
    } else {
        p
    }
}

/// A price after conversion to the full currency unit: the value shifts
/// two places left and the currency is re-tagged; a price already in
/// the full unit is left alone.
pub open spec fn spec_to_currency_full(p: PriceModel) -> PriceModel {
    if p.currency_unit.spec_unit() == CurrencyUnit::Fraction {
        PriceModel {
            value: spec_shift_left(p.value, 2),
            currency_unit: p.currency_unit.spec_with_unit(CurrencyUnit::Full),
            ..p
        }
    } else {
        p
    }
}

/// A price after conversion to kWh: the value shifts three places left
/// and the power unit is re-tagged; a kWh price is left alone.
pub open spec fn spec_to_kwh(p: PriceModel) -> PriceModel {
    if p.power_unit == Power::MWh {
        PriceModel { value: spec_shift_left(p.value, 3), power_unit: Power::kWh, ..p }
    } else {
        p
    }
}

/// A price after conversion to MWh: the value shifts three places right
/// and the power unit is re-tagged; an MWh price is left alone.
pub open spec fn spec_to_mwh(p: PriceModel) -> PriceModel {
    if p.power_unit == Power::kWh {
        PriceModel { value: spec_shift_right(p.value, 3), power_unit: Power::MWh, ..p }
    } else {
        p
    }
}

/// Converting a full-unit currency price to its sub-unit and back
/// restores the original currency tag, leaves every other field
/// untouched, and restores a value equal to the original up to
/// leading- and trailing-zero normalization.
pub proof fn lemma_currency_round_trip(p: PriceModel)
    requires
        p.wf(),
        p.currency_unit.spec_unit() == CurrencyUnit::Full,
    ensures
        ({
            let q = spec_to_currency_full(spec_to_currency_fraction(p));
            &&& q == PriceModel { value: crate::decimal::spec_normalize(p.value), ..p }
        }),
{
    crate::decimal::lemma_shift_round_trip(p.value, 2);
}

/// Converting a kWh price to MWh and back restores the original power
/// tag, leaves every other field untouched, and restores a value equal
/// to the original up to leading- and trailing-zero normalization.
pub proof fn lemma_power_round_trip(p: PriceModel)
    requires
        p.wf(),
        p.power_unit == Power::kWh,
    ensures
        ({
            let q = spec_to_kwh(spec_to_mwh(p));
            &&& q == PriceModel { value: crate::decimal::spec_normalize(p.value), ..p }
        }),
{
    crate::decimal::lemma_shift_round_trip(p.value, 3);
}

/// Converts the price to the currency sub-unit by moving the decimal
/// point two places to the right; a no-op on a sub-unit price.
pub fn convert_to_currency_fraction(p: &mut Price)
    requires
        old(p).wf(),
    ensures
        final(p)@ == spec_to_currency_fraction(old(p)@),
        final(p).wf(),
{
    if p.currency_unit.is_full() {
        move_comma_right(&mut p.value, 2);
        p.currency_unit.to_fraction();
    }
}

/// Converts the price to the full currency unit by moving the decimal
/// point two places to the left; a no-op on a full-unit price.
pub fn convert_to_currency_full(p: &mut Price)
    requires
        old(p).wf(),
    ensures
        final(p)@ == spec_to_currency_full(old(p)@),
        final(p).wf(),
{
    if p.currency_unit.is_fraction() {
        move_comma_left(&mut p.value, 2);
        p.currency_unit.to_full();
    }
}

/// Converts the price to kWh by moving the decimal point three places
/// to the left; a no-op on a kWh price.
pub fn convert_to_kwh(p: &mut Price)
    requires
        old(p).wf(),
    ensures
        final(p)@ == spec_to_kwh(old(p)@),
        final(p).wf(),
{
    if p.power_unit.is_mwh() {
        move_comma_left(&mut p.value, 3);
        p.power_unit.to_kwh();
    }
}

/// Converts the price to MWh by moving the decimal point three places
/// to the right; a no-op on an MWh price.
pub fn convert_to_mwh(p: &mut Price)
    requires
        old(p).wf(),
    ensures
        final(p)@ == spec_to_mwh(old(p)@),
        final(p).wf(),
{
    if p.power_unit.is_kwh() {
        move_comma_right(&mut p.value, 3);
        p.power_unit.to_mwh();
    }
}

} // verus!
