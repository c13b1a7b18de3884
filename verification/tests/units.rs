use chrono::TimeZone;
use chrono::Utc;

use eb_nordpool::dates::Date;
use eb_nordpool::decimal::{move_comma_left, move_comma_right};
use eb_nordpool::elspot::Price;
use eb_nordpool::units;
use eb_nordpool::units::{Currency, CurrencyUnit, Mtu, Power};

fn get_dummy_price(v: &str) -> Price {
    let dt = Utc.with_ymd_and_hms(2020, 1, 1, 0, 0, 0).unwrap();
    let from = dt.timestamp();

    Price {
        value: String::from(v),
        from,
        to: from + 3600,
        date: Date { year: 2020, month: 1, day: 1 },
        region: String::from("NO3"),
        currency_unit: Currency::NOK(CurrencyUnit::Full),
        market_time_unit: Mtu::Sixty,
        power_unit: Power::MWh,
    }
}

#[test]
fn converting_price() {
    let mut p = get_dummy_price("0167.680");

    units::convert_to_currency_fraction(&mut p);
    assert_eq!("16768", p.value);
    assert_eq!("Øre", p.currency_unit.as_str());
    assert_eq!("MWh", p.power_unit.as_str());

    units::convert_to_kwh(&mut p);
    assert_eq!("16.768", p.value);
    assert_eq!("kWh", p.power_unit.as_str());

    units::convert_to_currency_full(&mut p);
    assert_eq!("0.16768", p.value);
    assert_eq!("Kr.", p.currency_unit.as_str());
    assert_eq!("kWh", p.power_unit.as_str());

    units::convert_to_mwh(&mut p);
    assert_eq!("167.68", p.value);
    assert_eq!("MWh", p.power_unit.as_str());

    p.value = String::from("10.505");
    units::convert_to_currency_fraction(&mut p);
    assert_eq!("1050.5", p.value);
    assert_eq!("Øre", p.currency_unit.as_str());

    p.value = String::from("10.5");
    assert_eq!("10.5", p.value);
}

#[test]
fn negative_price() {
    let mut p = get_dummy_price("-0.6");
    units::convert_to_currency_fraction(&mut p);
    assert_eq!("-60", p.value);

    units::convert_to_kwh(&mut p);
    assert_eq!("-0.06", p.value);

    let mut p = get_dummy_price("-30");
    units::convert_to_kwh(&mut p);
    assert_eq!("-0.03", p.value);

    units::convert_to_currency_fraction(&mut p);
    assert_eq!("-03", p.value);

    let p = get_dummy_price("-10.5");
    assert_eq!("-10.5", p.value);

    let p = get_dummy_price("-10.49");
    assert_eq!("-10.49", p.value);
}

#[test]
fn decimal_shift_scenarios() {
    let mut v = String::from("0167.680");
    move_comma_right(&mut v, 2);
    assert_eq!("16768", v);

    let mut v = String::from("16768");
    move_comma_left(&mut v, 3);
    assert_eq!("16.768", v);

    let mut v = String::from("-0.6");
    move_comma_right(&mut v, 2);
    assert_eq!("-60", v);

    let mut v = String::from("-30");
    move_comma_left(&mut v, 3);
    assert_eq!("-0.03", v);
}

#[test]
fn decimal_shift_edge_cases() {
    // A value with no fractional part gains zero digits.
    let mut v = String::from("5");
    move_comma_right(&mut v, 3);
    assert_eq!("5000", v);

    // A value that becomes purely fractional gets a zero prefix.
    let mut v = String::from("5");
    move_comma_left(&mut v, 3);
    assert_eq!("0.005", v);

    // A fractional part of exactly "0" carries no value.
    let mut v = String::from("42.0");
    move_comma_right(&mut v, 2);
    assert_eq!("4200", v);

    // The sign takes no part in zero stripping or digit counting.
    let mut v = String::from("-007.10");
    move_comma_right(&mut v, 2);
    assert_eq!("-710", v);

    // Zero stays a plain zero through a left shift.
    let mut v = String::from("0");
    move_comma_left(&mut v, 2);
    assert_eq!("0", v);
}

#[test]
fn shift_round_trip() {
    // Shifting right and back left restores the value up to
    // leading- and trailing-zero normalization.
    for n in [2usize, 3usize] {
        for s in ["0167.680", "-0.6", "10.505", "0", "5.", ".5", "-30", "00.100"] {
            let mut v = String::from(s);
            move_comma_right(&mut v, n);
            move_comma_left(&mut v, n);
            let mut norm = String::from(s);
            move_comma_left(&mut norm, 0);
            assert_eq!(norm, v);
        }
    }
    let mut norm = String::from("0167.680");
    move_comma_left(&mut norm, 0);
    assert_eq!("167.68", norm);
}

#[test]
fn currency_tag_round_trip() {
    let mut p = get_dummy_price("167.680");
    units::convert_to_currency_fraction(&mut p);
    assert!(p.currency_unit.is_fraction());
    units::convert_to_currency_full(&mut p);
    assert!(p.currency_unit.is_full());
    assert_eq!("167.68", p.value);
    assert_eq!("NOK", p.currency_unit.country_code_as_str());

    // Converting a sub-unit price to the sub-unit again is a no-op.
    units::convert_to_currency_fraction(&mut p);
    let first = p.value.clone();
    units::convert_to_currency_fraction(&mut p);
    assert_eq!(first, p.value);
    assert!(p.currency_unit.is_fraction());
}

#[test]
fn unit_constructors() {
    assert!(Currency::new("EUR").is_ok());
    assert!(Currency::new("NOK").is_ok());
    assert_eq!(
        Currency::new("XXX"),
        Err(eb_nordpool::error::UnitError::InvalidCurrencyUnit)
    );
    assert!(Currency::new("EUR").unwrap().is_full());
    assert_eq!("Eur.", Currency::new("EUR").unwrap().as_str());

    assert_eq!(Ok(Power::MWh), Power::new("MWh"));
    assert_eq!(Ok(Power::kWh), Power::new("kWh"));
    assert_eq!(
        Power::new("GWh"),
        Err(eb_nordpool::error::UnitError::InvalidPowerUnit)
    );
    assert!(Power::new("MWh").unwrap().is_mwh());
    assert!(Power::new("kWh").unwrap().is_kwh());
    assert_eq!("MWh", Power::new("MWh").unwrap().as_str());

    assert_eq!(Ok(Mtu::Sixty), Mtu::new(0, 3600));
    assert_eq!(Ok(Mtu::Fifteen), Mtu::new(1000, 1900));
    assert_eq!("60 minutes", Mtu::Sixty.as_str());
    assert_eq!("15 minutes", Mtu::Fifteen.as_str());
    assert_eq!(
        Mtu::new(0, 1800),
        Err(eb_nordpool::error::UnitError::InvalidMtuUnit)
    );
}
