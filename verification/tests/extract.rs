use eb_nordpool::dates::Date;
use eb_nordpool::elspot::{NaiveStamp, Price, PriceData, RawColumn, RawRow};
use eb_nordpool::error::ElspotError;
use eb_nordpool::hour_count::Hours;

fn stamp(date: Date, hour: u32) -> NaiveStamp {
    NaiveStamp { date, hour, minute: 0, second: 0 }
}

fn col(name: &str, value: &str) -> RawColumn {
    RawColumn { name: name.to_string(), value: value.to_string(), is_official: true }
}

/// A feed whose rows carry the given local start hours, quoting one
/// price per row for the regions named with their values.
fn feed(date: Date, hours: &[u32], cols: &[(&str, &[&str])], unit: &str) -> PriceData {
    let mut rows: Vec<RawRow> = Vec::new();
    for (k, h) in hours.iter().enumerate() {
        let mut columns: Vec<RawColumn> = Vec::new();
        for (name, values) in cols.iter() {
            columns.push(col(name, values[k]));
        }
        let end_date = date;
        rows.push(RawRow {
            columns,
            start_time: stamp(date, *h),
            end_time: if *h == 23 {
                stamp(end_date, 0)
            } else {
                stamp(end_date, *h + 1)
            },
            is_extra_row: false,
        });
    }
    // The feeds carry trailing aggregate rows, always skipped.
    let mut extra_cols: Vec<RawColumn> = Vec::new();
    for (name, _) in cols.iter() {
        extra_cols.push(col(name, "99.99"));
    }
    rows.push(RawRow {
        columns: extra_cols,
        start_time: stamp(date, 0),
        end_time: stamp(date, 1),
        is_extra_row: true,
    });
    PriceData::new(rows, date, unit[..3].to_string(), 10, vec![unit.to_string()], false)
        .unwrap()
}

fn ts(rfc3339: &str) -> i64 {
    chrono::DateTime::parse_from_rfc3339(rfc3339).unwrap().timestamp()
}

fn values(n: usize, v: &str) -> Vec<String> {
    let mut out = Vec::new();
    for _ in 0..n {
        out.push(v.to_string());
    }
    out
}

/// The 23-hour spring-forward day: 24 labeled rows, the skipped hour
/// holding the no-data marker.
fn spring_forward_feed() -> PriceData {
    let date = Date { year: 2023, month: 3, day: 26 };
    let hours: Vec<u32> = (0..24).collect();
    let mut oslo = values(24, "167.66");
    oslo[2] = "-".to_string();
    let mut sys = values(24, "150.00");
    sys[2] = "-".to_string();
    let oslo_refs: Vec<&str> = oslo.iter().map(|s| s.as_str()).collect();
    let sys_refs: Vec<&str> = sys.iter().map(|s| s.as_str()).collect();
    feed(
        date,
        &hours,
        &[("Oslo", &oslo_refs), ("SYS", &sys_refs)],
        "NOK/MWh",
    )
}

/// The 25-hour fall-back day: the 02:00 row occurs twice.
fn fall_back_feed() -> PriceData {
    let date = Date { year: 2022, month: 10, day: 30 };
    let hours: Vec<u32> = vec![
        0, 1, 2, 2, 3, 4, 5, 6, 7, 8, 9, 10, 11, 12, 13, 14, 15, 16, 17, 18, 19, 20, 21, 22, 23,
    ];
    let mut oslo = values(25, "120.00");
    oslo[2] = "111.11".to_string();
    oslo[3] = "222.22".to_string();
    let oslo_refs: Vec<&str> = oslo.iter().map(|s| s.as_str()).collect();
    feed(date, &hours, &[("Oslo", &oslo_refs)], "NOK/MWh")
}

#[test]
fn hours_in_day_dst_cases() {
    let spring = Date { year: 2023, month: 3, day: 26 };
    let fall = Date { year: 2022, month: 10, day: 30 };
    let plain = Date { year: 2024, month: 6, day: 20 };
    assert_eq!(Ok(Hours::TwentyThree), Hours::new(&spring, "Oslo"));
    assert_eq!(Ok(Hours::TwentyFive), Hours::new(&fall, "Oslo"));
    assert_eq!(Ok(Hours::TwentyFour), Hours::new(&plain, "Oslo"));
    assert_eq!(23, Hours::new(&spring, "Oslo").unwrap().count());
    assert_eq!(25, Hours::new(&fall, "Oslo").unwrap().count());
    assert_eq!(24, Hours::new(&plain, "Oslo").unwrap().count());

    // The system-wide series counts against the exchange's home zone.
    assert_eq!(Ok(Hours::TwentyThree), Hours::new(&spring, "SYS"));

    // Helsinki changes on the same dates, one hour ahead.
    assert_eq!(Ok(Hours::TwentyThree), Hours::new(&spring, "FI"));

    assert_eq!(
        Err(eb_nordpool::error::RegionError::RegionTzNotSupported),
        Hours::new(&plain, "XX")
    );
}

#[test]
fn extract_spring_forward_day() {
    let data = spring_forward_feed();
    assert!(data.has_region("Oslo"));
    assert!(data.has_region("SYS"));
    assert!(!data.has_region("FI"));
    assert_eq!("NOK", data.currency());

    let prices = data.extract_prices_for_region("Oslo").unwrap();
    assert_eq!(23, prices.len());
    let p = &prices[0];
    assert_eq!(ts("2023-03-26T00:00:00+01:00"), p.from);
    assert_eq!(ts("2023-03-26T01:00:00+01:00"), p.to);
    assert_eq!(3600, p.to - p.from);
    assert_eq!("167.66", p.value);
    assert_eq!("Oslo", p.region);

    // The system-wide series is extracted against UTC times but still
    // yields one entry per Oslo hour.
    let sys = data.extract_prices_for_region("SYS").unwrap();
    assert_eq!(23, sys.len());
    assert_eq!(ts("2023-03-26T00:00:00+00:00"), sys[0].from);
}

#[test]
fn extract_fall_back_day() {
    let data = fall_back_feed();
    let prices = data.extract_prices_for_region("Oslo").unwrap();
    assert_eq!(25, prices.len());
    assert_eq!(ts("2022-10-30T00:00:00+02:00"), prices[0].from);
    // The two occurrences of 02:00 carry different values and differ by
    // one hour in UTC.
    assert_eq!("111.11", prices[2].value);
    assert_eq!("222.22", prices[3].value);
    assert_eq!(3600, prices[3].from - prices[2].from);
}

#[test]
fn extract_plain_day() {
    let date = Date { year: 2024, month: 6, day: 20 };
    let hours: Vec<u32> = (0..24).collect();
    let tr = values(24, "5.82");
    let fi = values(24, "-5.00");
    let nodata = values(24, "-");
    let tr_refs: Vec<&str> = tr.iter().map(|s| s.as_str()).collect();
    let fi_refs: Vec<&str> = fi.iter().map(|s| s.as_str()).collect();
    let nodata_refs: Vec<&str> = nodata.iter().map(|s| s.as_str()).collect();
    let data = feed(
        date,
        &hours,
        &[("Tr.heim", &tr_refs), ("FI", &fi_refs), ("BE", &nodata_refs)],
        "EUR/MWh",
    );
    assert!(!data.is_preliminary());
    assert!(data.is_final());
    assert!(data.prices_are_official());
    assert_eq!(vec!["Tr.heim", "FI", "BE"], data.regions());

    let prices = data.extract_prices_for_region("Tr.heim").unwrap();
    assert_eq!(24, prices.len());
    assert_eq!("5.82", prices[1].value);
    assert_eq!(prices[1].date, date);
    assert_eq!("Eur.", prices[1].currency_unit.as_str());
    assert_eq!("MWh", prices[1].power_unit.as_str());

    let prices = data.extract_prices_for_region("FI").unwrap();
    assert_eq!("-5.00", prices[2].value);

    // A region whose column holds only the no-data marker yields an
    // empty result.
    let prices = data.extract_prices_for_region("BE").unwrap();
    assert_eq!(0, prices.len());

    // The aggregate extra row is skipped, so all regions agree; the
    // dataless column contributes an empty sequence at its position.
    let all = data.extract_prices_all_regions().unwrap();
    assert_eq!(3, all.len());
    assert_eq!(24, all[0].len());
    assert_eq!(24, all[1].len());
    assert_eq!(0, all[2].len());

    // Values keep comma-decimal and spaced forms out of the records.
    assert_eq!(
        Err(ElspotError::RegionNotFound),
        data.extract_prices_for_region("NO1").map(|_| ())
    );
}

#[test]
fn extract_cleans_values() {
    let date = Date { year: 2024, month: 6, day: 20 };
    let hours: Vec<u32> = (0..24).collect();
    let v = values(24, "1 167,68");
    let v_refs: Vec<&str> = v.iter().map(|s| s.as_str()).collect();
    let data = feed(date, &hours, &[("Oslo", &v_refs)], "NOK/MWh");
    let prices = data.extract_prices_for_region("Oslo").unwrap();
    assert_eq!("1167.68", prices[0].value);
}

#[test]
fn extract_error_cases() {
    let date = Date { year: 2024, month: 6, day: 20 };

    // A count that contradicts the hour count of the day is fatal.
    let hours: Vec<u32> = (0..23).collect();
    let v = values(23, "5.82");
    let v_refs: Vec<&str> = v.iter().map(|s| s.as_str()).collect();
    let data = feed(date, &hours, &[("Oslo", &v_refs)], "EUR/MWh");
    assert_eq!(
        Err(ElspotError::RowCountMismatch),
        data.extract_prices_for_region("Oslo").map(|_| ())
    );
    // Bulk extraction reports the corruption instead of skipping it.
    assert_eq!(
        Err(ElspotError::RowCountMismatch),
        data.extract_prices_all_regions().map(|_| ())
    );

    // A column for a region outside the timezone table cannot be
    // localized.
    let hours: Vec<u32> = (0..24).collect();
    let v = values(24, "5.82");
    let v_refs: Vec<&str> = v.iter().map(|s| s.as_str()).collect();
    let data = feed(date, &hours, &[("XX", &v_refs)], "EUR/MWh");
    assert_eq!(
        Err(ElspotError::UnsupportedRegion),
        data.extract_prices_for_region("XX").map(|_| ())
    );

    // A value that is no decimal is rejected, not passed through.
    let mut v = values(24, "5.82");
    v[7] = "n/a".to_string();
    let v_refs: Vec<&str> = v.iter().map(|s| s.as_str()).collect();
    let data = feed(date, &hours, &[("Oslo", &v_refs)], "EUR/MWh");
    assert_eq!(
        Err(ElspotError::InvalidDecimalValue),
        data.extract_prices_for_region("Oslo").map(|_| ())
    );

    // Rows that do not fall on the declared date are a misalignment.
    let wrong_date = Date { year: 2024, month: 6, day: 21 };
    let v = values(24, "5.82");
    let v_refs: Vec<&str> = v.iter().map(|s| s.as_str()).collect();
    let mut data = feed(date, &hours, &[("Oslo", &v_refs)], "EUR/MWh");
    data.date = wrong_date;
    assert_eq!(
        Err(ElspotError::DeliveryDateMismatch),
        data.extract_prices_for_region("Oslo").map(|_| ())
    );
}

#[test]
fn price_data_validation() {
    let date = Date { year: 2024, month: 6, day: 20 };
    let row = RawRow {
        columns: vec![col("Oslo", "5.82")],
        start_time: stamp(date, 0),
        end_time: stamp(date, 1),
        is_extra_row: false,
    };
    assert!(matches!(
        PriceData::new(
            vec![row.clone()],
            date,
            "EUR".to_string(),
            9,
            vec!["EUR/MWh".to_string()],
            false,
        ),
        Err(ElspotError::MarketdataPage10InvalidPageId)
    ));
    assert!(matches!(
        PriceData::new(vec![row.clone()], date, "EUR".to_string(), 10, vec![], false),
        Err(ElspotError::MarketdataPage10MissingUnitString)
    ));
    assert!(matches!(
        PriceData::new(
            vec![row.clone()],
            date,
            "EUR".to_string(),
            10,
            vec!["EUR/GWh".to_string()],
            false,
        ),
        Err(ElspotError::MarketdataPage10InvalidUnitString)
    ));
    assert!(matches!(
        PriceData::new(
            vec![],
            date,
            "EUR".to_string(),
            10,
            vec!["EUR/MWh".to_string()],
            false,
        ),
        Err(ElspotError::MarketdataPage10InvalidJson)
    ));
    let ragged = RawRow {
        columns: vec![col("Oslo", "5.82"), col("FI", "1.00")],
        start_time: stamp(date, 1),
        end_time: stamp(date, 2),
        is_extra_row: false,
    };
    assert!(matches!(
        PriceData::new(
            vec![row.clone(), ragged],
            date,
            "EUR".to_string(),
            10,
            vec!["EUR/MWh".to_string()],
            false,
        ),
        Err(ElspotError::MarketdataPage10InvalidJson)
    ));
    assert!(PriceData::new(
        vec![row],
        date,
        "EUR".to_string(),
        10,
        vec!["EUR/MWh".to_string()],
        false,
    )
    .is_ok());
}

#[test]
fn ambiguous_hour_lookup() {
    let data = fall_back_feed();

    // The earlier UTC instant of the doubled local hour selects the
    // first 02:00 row, the later one the second.
    let early = ts("2022-10-30T02:00:00+02:00");
    let late = ts("2022-10-30T02:00:00+01:00");
    assert_eq!(3600, late - early);
    let first = data.row_for_utc_instant("Oslo", early).unwrap();
    let second = data.row_for_utc_instant("Oslo", late).unwrap();
    assert_eq!(2, first);
    assert_eq!(3, second);
    let v1 = &data.rows[first].columns[0].value;
    let v2 = &data.rows[second].columns[0].value;
    assert_eq!("111.11", v1);
    assert_eq!("222.22", v2);
    assert_ne!(v1, v2);

    // An unambiguous hour resolves to exactly its row.
    let one = ts("2022-10-30T01:00:00+02:00");
    assert_eq!(1, data.row_for_utc_instant("Oslo", one).unwrap());
    let five = ts("2022-10-30T05:00:00+01:00");
    assert_eq!(6, data.row_for_utc_instant("Oslo", five).unwrap());

    assert_eq!(
        Err(ElspotError::UnsupportedRegion),
        data.row_for_utc_instant("XX", early)
    );
}

#[test]
fn lookup_hour_not_found() {
    let date = Date { year: 2024, month: 6, day: 20 };
    let hours: Vec<u32> = (0..4).collect();
    let v = values(4, "5.82");
    let v_refs: Vec<&str> = v.iter().map(|s| s.as_str()).collect();
    let data = feed(date, &hours, &[("Oslo", &v_refs)], "EUR/MWh");
    let late = ts("2024-06-20T12:00:00+02:00");
    assert_eq!(
        Err(ElspotError::HourNotFound),
        data.row_for_utc_instant("Oslo", late)
    );
}
