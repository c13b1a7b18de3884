use eb_nordpool::currencies::currency_is_supported;
use eb_nordpool::dates::{parse_date, Date};
use eb_nordpool::error::{RegionError, UnitError};
use eb_nordpool::query::{join_commas, QueryOptions};
use eb_nordpool::regions::region_is_supported;
use eb_nordpool::states::State;
use eb_nordpool::unit_string::{extract_currency_unit, extract_power_unit, test_unit_string};

#[test]
fn build_query_url() {
    let mut q = QueryOptions::new();
    assert!(q.build_url().is_none());

    q.set_currency("NOK").unwrap();
    q.set_date("2024-10-24").unwrap();
    assert!(q.build_url().is_none());

    let regions = vec!["NO1".to_string(), "SE3".to_string(), "NO1".to_string()];
    q.set_regions(&regions).unwrap();
    // The duplicate region is kept only once, and the join is
    // percent-encoded by the URL builder.
    assert_eq!(vec!["NO1".to_string(), "SE3".to_string()], q.regions);
    let url = q.build_url().unwrap();
    assert_eq!(
        "https://dataportal-api.nordpoolgroup.com/api/DayAheadPrices?market=DayAhead&currency=NOK&date=2024-10-24&deliveryArea=NO1%2CSE3",
        url
    );
}

#[test]
fn query_rejects_bad_parts() {
    let mut q = QueryOptions::new();
    assert_eq!(Err(UnitError::InvalidCurrencyUnit), q.set_currency("USD"));
    assert!(q.currency.is_none());

    assert!(q.set_date("2024-13-01").is_err());
    assert!(q.set_date("2023-02-29").is_err());
    assert!(q.set_date("2024-1-2").is_err());
    assert!(q.set_date("not a date").is_err());
    assert!(q.date.is_none());
    assert!(q.set_date("2024-02-29").is_ok());

    let regions = vec!["NO1".to_string(), "Narnia".to_string()];
    assert_eq!(Err(RegionError::RegionNotSupported), q.set_regions(&regions));
    assert!(q.regions.is_empty());
}

#[test]
fn date_parsing() {
    assert_eq!(
        Some(Date { year: 2018, month: 1, day: 26 }),
        parse_date("2018-01-26")
    );
    assert_eq!(None, parse_date("2018-01-32"));
    assert_eq!(None, parse_date("2018-00-01"));
    assert_eq!(None, parse_date("18-01-26"));
    assert_eq!(Some(Date { year: 2000, month: 2, day: 29 }), parse_date("2000-02-29"));
    assert_eq!(None, parse_date("1900-02-29"));
}

#[test]
fn catalog_membership() {
    assert!(region_is_supported("NO1"));
    assert!(region_is_supported("SYS"));
    assert!(!region_is_supported("Oslo"));
    assert!(currency_is_supported("NOK"));
    assert!(currency_is_supported("RON"));
    assert!(!currency_is_supported("USD"));
}

#[test]
fn unit_string_vocabulary() {
    assert!(test_unit_string("NOK/MWh").is_ok());
    assert!(test_unit_string("EUR/MWh").is_ok());
    assert!(test_unit_string("EUR/kWh").is_err());
    assert!(test_unit_string("USD/MWh").is_err());
    assert_eq!("NOK", extract_currency_unit("NOK/MWh"));
    assert_eq!("MWh", extract_power_unit("NOK/MWh"));
}

#[test]
fn join_commas_examples() {
    assert_eq!("", join_commas(&vec![]));
    assert_eq!("NO1", join_commas(&vec!["NO1".to_string()]));
    assert_eq!(
        "NO1,SE3,FI",
        join_commas(&vec!["NO1".to_string(), "SE3".to_string(), "FI".to_string()])
    );
}

#[test]
fn price_states() {
    assert!(State::Final.is_final());
    assert!(!State::Final.is_preliminary());
    assert!(State::Preliminary.is_preliminary());
    assert!(!State::Preliminary.is_final());
}

#[test]
fn debug_note() {
    let d = eb_nordpool::debug::Debug::new("feed.rs", "unexpected row");
    assert_eq!("feed.rs", d.file);
    assert_eq!("unexpected row", d.msg);
}
