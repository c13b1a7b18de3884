//! Day-ahead electricity price handling for the Nord Pool hourly feed.
//!
//! The crate turns raw hourly feed rows into normalized per-region price
//! records. The two delicate parts are calendar-aware reconciliation of
//! rows against the 23-, 24- or 25-hour days that daylight-saving
//! transitions produce, and loss-free unit conversion done by relocating
//! the decimal point inside the textual price value, so that no
//! floating-point rounding is ever involved.

pub mod currencies;
pub mod dates;
pub mod debug;
pub mod decimal;
pub mod elspot;
pub mod error;
pub mod hour_count;
pub mod query;
pub mod region_time;
pub mod regions;
pub mod states;
pub mod text;
pub mod unit_string;
pub mod units;
