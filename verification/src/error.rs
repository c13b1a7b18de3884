//! Typed failures surfaced by the library.
//!
//! Every invariant violation that the feed can provoke is reported as a
//! value of one of these enums; no library function panics on feed data.

use vstd::prelude::*;

verus! {

/// Failures while validating or extracting from a price data set.
#[derive(Clone, Copy, Debug, PartialEq, Eq, Structural)]
pub enum ElspotError {
    DataPortalDayaheadPricesInvalidJson,
    DataPortalDayaheadPricesInvalidVersion,
    MarketdataPage10InvalidJson,
    MarketdataPage10InvalidPageId,
    MarketdataPage10MissingUnitString,
    MarketdataPage10InvalidUnitString,
    /// The requested region has no column in the feed.
    RegionNotFound,
    /// The requested region is not in the timezone lookup table.
    UnsupportedRegion,
    /// No row carries the requested local hour.
    HourNotFound,
    /// Candidate rows for one local hour could not be told apart.
    AmbiguousHourUnresolved,
    /// The number of extracted rows contradicts the hour count of the day.
    RowCountMismatch,
    /// A price value is not a well-formed signed decimal string.
    InvalidDecimalValue,
    /// A produced entry does not fall on the declared delivery date.
    DeliveryDateMismatch,
    /// A local wall-clock time could not be mapped to a single instant.
    LocalTimeUnresolved,
    /// A date string does not spell a real `YYYY-MM-DD` calendar day.
    InvalidDate,
}

pub type ElspotResult<T> = Result<T, ElspotError>;

/// Failures of region lookups.
#[derive(Clone, Copy, Debug, PartialEq, Eq, Structural)]
pub enum RegionError {
    RegionIndexNotFound,
    RegionNotSupported,
    RegionTzNotSupported,
    /// Local midnight of the requested date does not exist or is ambiguous.
    RegionMidnightUnresolved,
}

pub type RegionResult<T> = Result<T, RegionError>;

/// Failures of unit parsing and conversion.
#[derive(Clone, Copy, Debug, PartialEq, Eq, Structural)]
pub enum UnitError {
    InvalidCurrencyUnit,
    InvalidPowerUnit,
    InvalidMtuUnit,
}

pub type UnitResult<T> = Result<T, UnitError>;

} // verus!
