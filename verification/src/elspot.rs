//! Normalized hourly price records.

use vstd::prelude::*;

use crate::dates::Date;
use crate::decimal::{check_wf_chars, wf_decimal};
use crate::error::{ElspotError, ElspotResult, RegionError, RegionResult};
use crate::hour_count::Hours;
use crate::region_time::{
    local_civil, local_civil_lookup, local_instant, local_instant_lookup, spec_tz_from_region,
    tz_from_region,
};
use crate::text::{chars_of, str_eq, string_from_chars};
use crate::unit_string::{extract_currency_unit, extract_power_unit, lemma_unit_token_parses};
use crate::units::{Currency, Mtu, Power};

verus! {

/// One hourly price observation for a region.
///
/// `from` and `to` are UTC instants in whole seconds bounding the
/// delivery interval, `value` is an exact decimal string, and the unit
/// tags say which currency denomination and power unit the value is
/// quoted in.
#[derive(Clone, Debug)]
pub struct Price {
    pub from: i64,
    pub to: i64,
    pub date: Date,
    pub region: String,
    pub value: String,
    pub currency_unit: Currency,
    pub market_time_unit: Mtu,
    pub power_unit: Power,
}

/// The mathematical view of a [`Price`]: the same fields over sequences
/// and unbounded integers.
pub ghost struct PriceModel {
    pub from: int,
    pub to: int,
    pub date: Date,
    pub region: Seq<char>,
    pub value: Seq<char>,
    pub currency_unit: Currency,
    pub market_time_unit: Mtu,
    pub power_unit: Power,
}

impl View for Price {
    type V = PriceModel;

    open spec fn view(&self) -> PriceModel {
        PriceModel {
            from: self.from as int,
            to: self.to as int,
            date: self.date,
            region: self.region@,
            value: self.value@,
            currency_unit: self.currency_unit,
            market_time_unit: self.market_time_unit,
            power_unit: self.power_unit,
        }
    }
}

impl DeepView for Price {
    type V = PriceModel;

    open spec fn deep_view(&self) -> PriceModel {
        self.view()
    }
}

impl Price {
    /// The price value is a well-formed signed decimal string.
    pub open spec fn wf(&self) -> bool {
        wf_decimal(self.value@)
    }
}

impl PriceModel {
    /// The price value is a well-formed signed decimal string.
    pub open spec fn wf(&self) -> bool {
        wf_decimal(self.value)
    }
}

/// A local wall-clock timestamp of the feed, with no timezone attached.
#[derive(Clone, Copy, Debug, PartialEq, Eq, Structural)]
pub struct NaiveStamp {
    pub date: Date,
    pub hour: u32,
    pub minute: u32,
    pub second: u32,
}

/// One named column of a raw feed row: a region name, its price value
/// for the row's hour (or the `-` no-data marker), and whether the
/// value is official.
#[derive(Clone, Debug)]
pub struct RawColumn {
    pub name: String,
    pub value: String,
    pub is_official: bool,
}

/// One hourly line of the raw feed.
#[derive(Clone, Debug)]
pub struct RawRow {
    pub columns: Vec<RawColumn>,
    pub start_time: NaiveStamp,
    pub end_time: NaiveStamp,
    pub is_extra_row: bool,
}

/// The hourly feed for one delivery date, already deserialized into
/// plain rows and columns.
#[derive(Clone, Debug)]
pub struct PriceData {
    pub rows: Vec<RawRow>,
    pub date: Date,
    pub currency: String,
    pub page_id: usize,
    pub units: Vec<String>,
    pub contains_preliminary: bool,
}

/// The feed has at least one row and every row has as many columns as
/// the first.
pub open spec fn rows_rectangular(rows: Seq<RawRow>) -> bool {
    &&& rows.len() >= 1
    &&& forall|i: int|
        0 <= i < rows.len() ==> #[trigger] rows[i].columns@.len() == rows[0].columns@.len()
}

/// Index of the first column of `cols` named `region`, or `cols.len()`
/// if none is.
pub open spec fn first_region_col(cols: Seq<RawColumn>, region: Seq<char>) -> int
    decreases cols.len(),
{
    if cols.len() == 0 {
        0
    } else if cols[0].name@ == region {
        0
    } else {
        1 + first_region_col(cols.skip(1), region)
    }
}

/// The first matching column is where a left-to-right scan stops: at
/// `k` if no earlier column matches and `k` matches or is the end.
pub proof fn lemma_first_region_col_from_scan(cols: Seq<RawColumn>, region: Seq<char>, k: int)
    requires
        0 <= k <= cols.len(),
        forall|j: int| 0 <= j < k ==> cols[j].name@ != region,
        k == cols.len() || cols[k].name@ == region,
    ensures
        first_region_col(cols, region) == k,
    decreases cols.len(),
{
    if cols.len() == 0 {
    } else if cols[0].name@ == region {
    } else {
        lemma_first_region_col_from_scan(cols.skip(1), region, k - 1);
    }
}

/// A row contributes a price: it is no aggregate extra row and its
/// value for the region is not the no-data marker.
pub open spec fn row_selected(row: RawRow, idx: int) -> bool {
    &&& !row.is_extra_row
    &&& row.columns@[idx].value@ != "-"@
}

/// The rows that contribute prices for the region's column, in feed
/// order.
pub open spec fn selected_rows(rows: Seq<RawRow>, idx: int) -> Seq<RawRow> {
    rows.filter(|row: RawRow| row_selected(row, idx))
}

/// A raw price value after cleaning: decimal commas become points and
/// spaces are dropped.
pub open spec fn cleaned(s: Seq<char>) -> Seq<char>
    decreases s.len(),
{
    if s.len() == 0 {
        Seq::empty()
    } else {
        let rest = cleaned(s.drop_last());
        if s.last() == ' ' {
            rest
        } else if s.last() == ',' {
            rest.push('.')
        } else {
            rest.push(s.last())
        }
    }
}

impl PriceData {
    /// The shape every constructed feed has: at least one row, a
    /// rectangular column grid, and a declared, supported unit token.
    pub open spec fn wf(&self) -> bool {
        &&& rows_rectangular(self.rows@)
        &&& self.units@.len() >= 1
        &&& crate::unit_string::spec_unit_string_ok(self.units@[0]@)
    }

    /// The validation failure a feed with these parts is rejected with,
    /// if any: a wrong page marker, a missing or unsupported unit
    /// token, or a missing or ragged row grid.
    pub open spec fn spec_new_check(page_id: int, units: Seq<String>, rows: Seq<RawRow>) -> Option<
        ElspotError,
    > {
        if page_id != 10 {
            Some(ElspotError::MarketdataPage10InvalidPageId)
        } else if units.len() == 0 {
            Some(ElspotError::MarketdataPage10MissingUnitString)
        } else if !crate::unit_string::spec_unit_string_ok(units[0]@) {
            Some(ElspotError::MarketdataPage10InvalidUnitString)
        } else if !rows_rectangular(rows) {
            Some(ElspotError::MarketdataPage10InvalidJson)
        } else {
            None
        }
    }

    /// Assembles a feed from deserialized parts, validating the page
    /// marker, the unit token and the row grid; a rejected feed reports
    /// exactly the failure of [`PriceData::spec_new_check`].
    #[verifier::loop_isolation(false)]
    pub fn new(
        rows: Vec<RawRow>,
        date: Date,
        currency: String,
        page_id: usize,
        units: Vec<String>,
        contains_preliminary: bool,
    ) -> (r: ElspotResult<PriceData>)
        ensures
            match r {
                Ok(pd) => Self::spec_new_check(page_id as int, units@, rows@) is None && pd
                    == (PriceData { rows, date, currency, page_id, units, contains_preliminary })
                    && pd.wf(),
                Err(e) => Self::spec_new_check(page_id as int, units@, rows@) == Some(e),
            },
    {
        if page_id != 10 {
            return Err(ElspotError::MarketdataPage10InvalidPageId);
        }
        if units.len() == 0 {
            return Err(ElspotError::MarketdataPage10MissingUnitString);
        }
        match crate::unit_string::test_unit_string(units[0].as_str()) {
            Err(e) => {
                return Err(e);
            },
            Ok(_) => {},
        }
        if rows.len() == 0 {
            return Err(ElspotError::MarketdataPage10InvalidJson);
        }
        let ncols = rows[0].columns.len();
        let mut i: usize = 1;
        while i < rows.len()
            invariant
                1 <= i <= rows@.len(),
                ncols == rows@[0].columns@.len(),
                forall|j: int| 0 <= j < i ==> #[trigger] rows@[j].columns@.len() == ncols,
            decreases rows@.len() - i,
        {
            if rows[i].columns.len() != ncols {
                return Err(ElspotError::MarketdataPage10InvalidJson);
            }
            i = i + 1;
        }
        Ok(PriceData { rows, date, currency, page_id, units, contains_preliminary })
    }

    /// Decides the feed shape invariant, for callers that assemble a
    /// feed by hand rather than through [`PriceData::new`].
    #[verifier::loop_isolation(false)]
    pub fn wf_check(&self) -> (r: bool)
        ensures
            r == self.wf(),
    {
        if self.rows.len() == 0 {
            return false;
        }
        if self.units.len() == 0 {
            return false;
        }
        if crate::unit_string::test_unit_string(self.units[0].as_str()).is_err() {
            return false;
        }
        let ncols = self.rows[0].columns.len();
        let mut i: usize = 1;
        while i < self.rows.len()
            invariant
                1 <= i <= self.rows@.len(),
                ncols == self.rows@[0].columns@.len(),
                forall|j: int| 0 <= j < i ==> #[trigger] self.rows@[j].columns@.len() == ncols,
            decreases self.rows@.len() - i,
        {
            if self.rows[i].columns.len() != ncols {
                return false;
            }
            i = i + 1;
        }
        true
    }

    /// Whether every regional price state is final.
    pub fn is_final(&self) -> (r: bool)
        ensures
            r == !self.contains_preliminary,
    {
        !self.contains_preliminary
    }

    /// Whether some regional price is still preliminary.
    pub fn is_preliminary(&self) -> (r: bool)
        ensures
            r == self.contains_preliminary,
    {
        self.contains_preliminary
    }

    /// Returns the currency code the feed is quoted in.
    pub fn currency(&self) -> (r: String)
        ensures
            r@ == self.currency@,
    {
        self.currency.clone()
    }

    /// Returns the delivery date the feed declares.
    pub fn date(&self) -> (r: Date)
        ensures
            r == self.date,
    {
        self.date
    }

    /// Finds the column of the first row that carries the region, as
    /// the leftmost match.
    pub fn col_index_for_region(&self, region: &str) -> (r: RegionResult<usize>)
        requires
            self.wf(),
        ensures
            match r {
                Ok(i) => i < self.rows@[0].columns@.len() && self.rows@[0].columns@[i as int].name@
                    == region@ && (forall|j: int|
                    0 <= j < i ==> self.rows@[0].columns@[j].name@ != region@),
                Err(e) => e == RegionError::RegionIndexNotFound && (forall|j: int|
                    0 <= j < self.rows@[0].columns@.len() ==> self.rows@[0].columns@[j].name@
                        != region@),
            },
    {
        let columns = &self.rows[0].columns;
        let mut i: usize = 0;
        while i < columns.len()
            invariant
                i <= columns@.len(),
                columns@ == self.rows@[0].columns@,
                forall|j: int| 0 <= j < i ==> columns@[j].name@ != region@,
            decreases columns@.len() - i,
        {
            if crate::text::str_eq(columns[i].name.as_str(), region) {
                return Ok(i);
            }
            i = i + 1;
        }
        Err(RegionError::RegionIndexNotFound)
    }

    /// Whether the feed carries a column for the region.
    pub fn has_region(&self, region: &str) -> (r: bool)
        requires
            self.wf(),
        ensures
            r == exists|j: int|
                0 <= j < self.rows@[0].columns@.len() && (#[trigger] self.rows@[0].columns@[j])
                    .name@ == region@,
    {
        match self.col_index_for_region(region) {
            Ok(i) => {
                proof {
                    let cols = self.rows@[0].columns@;
                    assert(cols[i as int].name@ == region@);
                }
                true
            },
            Err(_) => false,
        }
    }

    /// Returns the region names of the feed's columns, in column order.
    pub fn regions(&self) -> (r: Vec<&str>)
        requires
            self.wf(),
        ensures
            r@.len() == self.rows@[0].columns@.len(),
            forall|j: int| 0 <= j < r@.len() ==> #[trigger] r@[j]@ == self.rows@[0].columns@[j].name@,
    {
        let columns = &self.rows[0].columns;
        let mut r: Vec<&str> = Vec::new();
        let mut i: usize = 0;
        while i < columns.len()
            invariant
                i <= columns@.len(),
                columns@ == self.rows@[0].columns@,
                r@.len() == i,
                forall|j: int| 0 <= j < i ==> #[trigger] r@[j]@ == columns@[j].name@,
            decreases columns@.len() - i,
        {
            r.push(columns[i].name.as_str());
            i = i + 1;
        }
        r
    }

    /// Whether every value of every row is marked official.
    pub fn prices_are_official(&self) -> (r: bool)
        ensures
            r == forall|i: int, j: int|
                0 <= i < self.rows@.len() && 0 <= j < self.rows@[i].columns@.len()
                    ==> (#[trigger] self.rows@[i].columns@[j]).is_official,
    {
        let mut i: usize = 0;
        while i < self.rows.len()
            invariant
                i <= self.rows@.len(),
                forall|a: int, b: int|
                    0 <= a < i && 0 <= b < self.rows@[a].columns@.len()
                        ==> (#[trigger] self.rows@[a].columns@[b]).is_official,
            decreases self.rows@.len() - i,
        {
            let row = &self.rows[i];
            let mut j: usize = 0;
            while j < row.columns.len()
                invariant
                    j <= row.columns@.len(),
                    row.columns@ == self.rows@[i as int].columns@,
                    i < self.rows@.len(),
                    forall|b: int|
                        0 <= b < j ==> (#[trigger] row.columns@[b]).is_official,
                decreases row.columns@.len() - j,
            {
                if !row.columns[j].is_official {
                    return false;
                }
                j = j + 1;
            }
            i = i + 1;
        }
        true
    }
}

/// Whether the instant falls on the given calendar date in the zone.
pub open spec fn delivery_date_ok(tz: Seq<char>, ts: int, date: Date) -> bool {
    match local_civil(tz, ts) {
        Some(t) => t.0 == date.year && t.1 == date.month && t.2 == date.day,
        None => false,
    }
}

/// What one produced price record holds, given the selected rows, the
/// feed date and unit token, the region column, the record's position
/// `k`, and the UTC instants `s0`/`e0` of the first row's interval: the
/// interval advances one hour per record, the units come from the
/// token, and the value is the cleaned, well-formed decimal of the
/// selected row's column.
pub open spec fn price_fields_ok(
    p: PriceModel,
    sel: Seq<RawRow>,
    date: Date,
    region: Seq<char>,
    unit: Seq<char>,
    idx: int,
    k: int,
    s0: int,
    e0: int,
) -> bool {
    &&& p.from == s0 + k * 3600
    &&& p.to == e0 + k * 3600
    &&& p.date == date
    &&& p.region == region
    &&& p.market_time_unit == Mtu::Sixty
    &&& Currency::spec_new(unit.subrange(0, 3)) == Ok::<Currency, crate::error::UnitError>(
        p.currency_unit,
    )
    &&& p.power_unit == Power::MWh
    &&& p.value == cleaned(sel[k].columns@[idx].value@)
    &&& wf_decimal(p.value)
}

/// Collects the characters of a raw value with decimal commas replaced
/// by points and spaces dropped.
fn clean_chars(s: &str) -> (v: Vec<char>)
    ensures
        v@ == cleaned(s@),
{
    let cs = chars_of(s);
    let mut out: Vec<char> = Vec::new();
    let mut i: usize = 0;
    while i < cs.len()
        invariant
            i <= cs@.len(),
            cs@ == s@,
            out@ == cleaned(s@.take(i as int)),
        decreases cs@.len() - i,
    {
        let c = cs[i];
        proof {
            assert(s@.take(i as int + 1).drop_last() =~= s@.take(i as int));
            assert(s@.take(i as int + 1).last() == s@[i as int]);
        }
        if c == ' ' {
        } else if c == ',' {
            out.push('.');
        } else {
            out.push(c);
        }
        i = i + 1;
    }
    proof {
        assert(s@.take(s@.len() as int) =~= s@);
    }
    out
}

impl PriceData {
    /// Everything a successful extraction promises: the region has a
    /// column, one record per selected row in feed order, a record
    /// count that matches the hour count of the day whenever any row
    /// was selected, interval stepping from the first row's local start
    /// and end instants, and, outside the system-wide series, every
    /// record falling on the declared delivery date.
    pub open spec fn extract_ok(self, region: Seq<char>, prices: Seq<PriceModel>) -> bool {
        let cols = self.rows@[0].columns@;
        let idx = first_region_col(cols, region);
        let sel = selected_rows(self.rows@, idx);
        &&& idx < cols.len()
        &&& prices.len() == sel.len()
        &&& (sel.len() > 0 ==> {
            &&& (match Hours::spec_new(self.date, region) {
                Ok(h) => h.spec_count() == sel.len(),
                Err(_) => false,
            })
            &&& (match spec_tz_from_region(region) {
                Ok(tz) => {
                    let name = tz.spec_iana_name();
                    let st = self.rows@[0].start_time;
                    let et = self.rows@[0].end_time;
                    match local_instant(
                        name,
                        st.date.year as int,
                        st.date.month as int,
                        st.date.day as int,
                        st.hour as int,
                        st.minute as int,
                        st.second as int,
                    ) {
                        Some(s0) => match local_instant(
                            name,
                            et.date.year as int,
                            et.date.month as int,
                            et.date.day as int,
                            et.hour as int,
                            et.minute as int,
                            et.second as int,
                        ) {
                            Some(e0) => forall|k: int|
                                0 <= k < prices.len() ==> price_fields_ok(
                                    #[trigger] prices[k],
                                    sel,
                                    self.date,
                                    region,
                                    self.units@[0]@,
                                    idx,
                                    k,
                                    s0,
                                    e0,
                                ) && (region != "SYS"@ ==> delivery_date_ok(
                                    name,
                                    s0 + k * 3600,
                                    self.date,
                                )),
                            None => false,
                        },
                        None => false,
                    }
                },
                Err(_) => false,
            })
        })
    }

    /// The UTC instant of the `k`-th produced entry, stepping one hour
    /// per entry from the instant of the first row's local start time.
    pub open spec fn entry_instant(s0: int, k: int) -> int {
        s0 + k * 3600
    }

    /// The UTC instant of the first row's local start time in the zone.
    pub open spec fn first_row_start_instant(self, name: Seq<char>) -> Option<int> {
        let st = self.rows@[0].start_time;
        local_instant(
            name,
            st.date.year as int,
            st.date.month as int,
            st.date.day as int,
            st.hour as int,
            st.minute as int,
            st.second as int,
        )
    }

    /// The UTC instant of the first row's local end time in the zone.
    pub open spec fn first_row_end_instant(self, name: Seq<char>) -> Option<int> {
        let et = self.rows@[0].end_time;
        local_instant(
            name,
            et.date.year as int,
            et.date.month as int,
            et.date.day as int,
            et.hour as int,
            et.minute as int,
            et.second as int,
        )
    }

    /// What each extraction failure means. The region, zone and count
    /// errors come exactly on their conditions; the time and value
    /// errors name a witness: an unresolvable first-row instant or
    /// entry instant, a selected value that cleans to no well-formed
    /// decimal, or an entry instant off the declared date.
    pub open spec fn extract_err(self, region: Seq<char>, e: ElspotError) -> bool {
        let cols = self.rows@[0].columns@;
        let idx = first_region_col(cols, region);
        let sel = selected_rows(self.rows@, idx);
        &&& (e == ElspotError::RegionNotFound <==> idx == cols.len())
        &&& (e == ElspotError::UnsupportedRegion <==> idx < cols.len() && sel.len() > 0
            && spec_tz_from_region(region) is Err)
        &&& (e == ElspotError::RowCountMismatch <==> idx < cols.len() && sel.len() > 0 && (
        match Hours::spec_new(self.date, region) {
            Ok(h) => h.spec_count() != sel.len(),
            Err(_) => false,
        }))
        &&& (e == ElspotError::LocalTimeUnresolved ==> idx < cols.len() && sel.len() > 0 && ({
        ||| Hours::spec_new(self.date, region) == Err::<Hours, RegionError>(
            RegionError::RegionMidnightUnresolved,
        )
        ||| (match spec_tz_from_region(region) {
            Ok(tz) => {
                let name = tz.spec_iana_name();
                ||| self.first_row_start_instant(name) is None
                ||| self.first_row_end_instant(name) is None
                ||| (region != "SYS"@ && (match self.first_row_start_instant(name) {
                    Some(s0) => exists|k: int|
                        0 <= k < sel.len() && (#[trigger] local_civil(
                            name,
                            Self::entry_instant(s0, k),
                        )) is None,
                    None => false,
                }))
            },
            Err(_) => false,
        })}))
        &&& (e == ElspotError::InvalidDecimalValue ==> idx < cols.len() && (exists|k: int|
            0 <= k < sel.len() && !wf_decimal(cleaned((#[trigger] sel[k]).columns@[idx].value@))))
        &&& (e == ElspotError::DeliveryDateMismatch ==> idx < cols.len() && region != "SYS"@ && (
        match spec_tz_from_region(region) {
            Ok(tz) => {
                let name = tz.spec_iana_name();
                match self.first_row_start_instant(name) {
                    Some(s0) => exists|k: int|
                        0 <= k < sel.len() && (match #[trigger] local_civil(
                            name,
                            Self::entry_instant(s0, k),
                        ) {
                            Some(t) => !(t.0 == self.date.year && t.1 == self.date.month && t.2
                                == self.date.day),
                            None => false,
                        }),
                    None => false,
                }
            },
            Err(_) => false,
        }))
        &&& (e == ElspotError::RegionNotFound || e == ElspotError::UnsupportedRegion || e
            == ElspotError::LocalTimeUnresolved || e == ElspotError::RowCountMismatch || e
            == ElspotError::InvalidDecimalValue || e == ElspotError::DeliveryDateMismatch)
    }

    /// Nothing extraction checks can fail: the region has a column,
    /// and, when any row is selected, the zone resolves, the row count
    /// matches the day's hour count, the first row's interval bounds
    /// resolve to instants, every selected value cleans to a
    /// well-formed decimal, and every entry instant falls on the
    /// declared date unless the region is the system-wide series.
    pub open spec fn extract_must_succeed(self, region: Seq<char>) -> bool {
        let cols = self.rows@[0].columns@;
        let idx = first_region_col(cols, region);
        let sel = selected_rows(self.rows@, idx);
        &&& idx < cols.len()
        &&& (sel.len() > 0 ==> {
            &&& (match Hours::spec_new(self.date, region) {
                Ok(h) => h.spec_count() == sel.len(),
                Err(_) => false,
            })
            &&& (match spec_tz_from_region(region) {
                Ok(tz) => {
                    let name = tz.spec_iana_name();
                    &&& self.first_row_start_instant(name) is Some
                    &&& self.first_row_end_instant(name) is Some
                    &&& (forall|k: int|
                        0 <= k < sel.len() ==> wf_decimal(
                            cleaned((#[trigger] sel[k]).columns@[idx].value@),
                        ))
                    &&& (region != "SYS"@ ==> (match self.first_row_start_instant(name) {
                        Some(s0) => forall|k: int|
                            0 <= k < sel.len() ==> #[trigger] delivery_date_ok(
                                name,
                                Self::entry_instant(s0, k),
                                self.date,
                            ),
                        None => false,
                    }))
                },
                Err(_) => false,
            })
        })
    }

    /// Extracts the ordered hourly price records of one region.
    ///
    /// Rows flagged as aggregate extras and rows whose column holds the
    /// no-data marker are skipped; a region with a column but no data
    /// yields an empty sequence. Whenever rows were selected, their
    /// count must equal the hour count of the delivery date in the
    /// region's timezone, and each record is checked to fall on the
    /// declared date (the system-wide series excepted). Each failure
    /// kind comes only on its own condition, and whenever
    /// [`PriceData::extract_must_succeed`] holds, extraction succeeds.
    #[verifier::loop_isolation(false)]
    #[verifier::rlimit(100)]
    #[verifier::spinoff_prover]
    pub fn extract_prices_for_region(&self, region: &str) -> (r: ElspotResult<Vec<Price>>)
        requires
            self.wf(),
        ensures
            match r {
                Ok(prices) => self.extract_ok(region@, prices.deep_view()),
                Err(e) => self.extract_err(region@, e),
            },
            self.extract_must_succeed(region@) ==> r is Ok,
    {
        broadcast use vstd::seq_lib::group_seq_properties;

        let ghost cols = self.rows@[0].columns@;
        let idx = match self.col_index_for_region(region) {
            Ok(i) => i,
            Err(_) => {
                proof {
                    lemma_first_region_col_from_scan(cols, region@, cols.len() as int);
                }
                return Err(ElspotError::RegionNotFound);
            },
        };
        proof {
            lemma_first_region_col_from_scan(cols, region@, idx as int);
        }
        let nrows = self.rows.len();
        let mut nsel: usize = 0;
        let mut i: usize = 0;
        while i < nrows
            invariant
                i <= nrows,
                nsel == selected_rows(self.rows@.take(i as int), idx as int).len(),
                nsel <= i,
            decreases nrows - i,
        {
            let row = &self.rows[i];
            let keep = !row.is_extra_row && !str_eq(row.columns[idx].value.as_str(), "-");
            proof {
                reveal(Seq::filter);
                assert(self.rows@.take(i as int + 1).drop_last() =~= self.rows@.take(i as int));
                assert(self.rows@.take(i as int + 1).last() == self.rows@[i as int]);
            }
            if keep {
                nsel = nsel + 1;
            }
            i = i + 1;
        }
        proof {
            assert(self.rows@.take(nrows as int) =~= self.rows@);
        }
        let ghost sel = selected_rows(self.rows@, idx as int);
        if nsel == 0 {
            let empty: Vec<Price> = Vec::new();
            proof {
                assert(empty.deep_view() =~= Seq::<PriceModel>::empty());
            }
            return Ok(empty);
        }
        let hours = match Hours::new(&self.date, region) {
            Ok(h) => h,
            Err(RegionError::RegionTzNotSupported) => {
                proof {
                    if region@ == "SYS"@ {
                        crate::region_time::lemma_sys_timezone();
                        assert(false);
                    }
                    assert(spec_tz_from_region(region@) is Err);
                }
                return Err(ElspotError::UnsupportedRegion);
            },
            Err(_) => {
                proof {
                    if region@ == "SYS"@ {
                        crate::region_time::lemma_sys_timezone();
                    }
                    assert(Hours::spec_new(self.date, region@) == Err::<Hours, RegionError>(
                        RegionError::RegionMidnightUnresolved,
                    ));
                    assert(spec_tz_from_region(region@) is Ok);
                }
                return Err(ElspotError::LocalTimeUnresolved);
            },
        };
        proof {
            if region@ == "SYS"@ {
                crate::region_time::lemma_sys_timezone();
            }
            assert(spec_tz_from_region(region@) is Ok);
        }
        if hours.count() as usize != nsel {
            return Err(ElspotError::RowCountMismatch);
        }
        proof {
            lemma_unit_token_parses(self.units@[0]@);
        }
        let unit = self.units[0].as_str();
        let cu = match Currency::new(extract_currency_unit(unit)) {
            Ok(c) => c,
            Err(_) => {
                proof {
                    assert(false);
                }
                return Err(ElspotError::MarketdataPage10InvalidUnitString);
            },
        };
        let pu = match Power::new(extract_power_unit(unit)) {
            Ok(p) => p,
            Err(_) => {
                proof {
                    assert(unit@.subrange(unit@.len() - 3, unit@.len() as int) =~= unit@.subrange(
                        4,
                        7,
                    ));
                    assert(false);
                }
                return Err(ElspotError::MarketdataPage10InvalidUnitString);
            },
        };
        let tz = match tz_from_region(region) {
            Ok(t) => t,
            Err(_) => {
                proof {
                    assert(false);
                }
                return Err(ElspotError::UnsupportedRegion);
            },
        };
        let name = tz.iana_name();
        let st = self.rows[0].start_time;
        let s0 = match local_instant_lookup(
            name,
            st.date.year,
            st.date.month,
            st.date.day,
            st.hour,
            st.minute,
            st.second,
        ) {
            Some(v) => v,
            None => {
                proof {
                    assert(self.first_row_start_instant(tz.spec_iana_name()) is None);
                }
                return Err(ElspotError::LocalTimeUnresolved);
            },
        };
        let et = self.rows[0].end_time;
        let e0 = match local_instant_lookup(
            name,
            et.date.year,
            et.date.month,
            et.date.day,
            et.hour,
            et.minute,
            et.second,
        ) {
            Some(v) => v,
            None => {
                proof {
                    assert(self.first_row_end_instant(tz.spec_iana_name()) is None);
                }
                return Err(ElspotError::LocalTimeUnresolved);
            },
        };
        proof {
            assert(self.first_row_start_instant(tz.spec_iana_name()) == Some(s0 as int));
            assert(self.first_row_end_instant(tz.spec_iana_name()) == Some(e0 as int));
        }
        let is_sys = str_eq(region, "SYS");
        let mut prices: Vec<Price> = Vec::new();
        let mut i2: usize = 0;
        while i2 < nrows
            invariant
                i2 <= nrows,
                prices.deep_view().len() == selected_rows(
                    self.rows@.take(i2 as int),
                    idx as int,
                ).len(),
                prices.deep_view().len() <= nsel,
                forall|k: int|
                    0 <= k < prices.deep_view().len() ==> price_fields_ok(
                        #[trigger] prices.deep_view()[k],
                        selected_rows(self.rows@.take(i2 as int), idx as int),
                        self.date,
                        region@,
                        self.units@[0]@,
                        idx as int,
                        k,
                        s0 as int,
                        e0 as int,
                    ) && (region@ != "SYS"@ ==> delivery_date_ok(
                        name@,
                        s0 + k * 3600,
                        self.date,
                    )),
            decreases nrows - i2,
        {
            let row = &self.rows[i2];
            let keep = !row.is_extra_row && !str_eq(row.columns[idx].value.as_str(), "-");
            let ghost presel = selected_rows(self.rows@.take(i2 as int), idx as int);
            proof {
                reveal(Seq::filter);
                assert(self.rows@.take(i2 as int + 1).drop_last() =~= self.rows@.take(i2 as int));
                assert(self.rows@.take(i2 as int + 1).last() == self.rows@[i2 as int]);
                assert(self.rows@ =~= self.rows@.take(i2 as int + 1) + self.rows@.skip(
                    i2 as int + 1,
                ));
                Seq::filter_distributes_over_add(
                    self.rows@.take(i2 as int + 1),
                    self.rows@.skip(i2 as int + 1),
                    |r2: RawRow| row_selected(r2, idx as int),
                );
            }
            if keep {
                let k = prices.len();
                proof {
                    assert(prices.deep_view().len() == k);
                    assert(selected_rows(self.rows@.take(i2 as int + 1), idx as int) == presel.push(
                        self.rows@[i2 as int],
                    ));
                    assert(selected_rows(self.rows@.take(i2 as int + 1), idx as int).len() <= sel.len());
                    assert(k < nsel);
                    assert(k < sel.len());
                    assert(sel[k as int] == self.rows@[i2 as int]) by {
                        assert(sel == selected_rows(self.rows@.take(i2 as int + 1), idx as int)
                            + selected_rows(self.rows@.skip(i2 as int + 1), idx as int));
                    }
                }
                let from = s0 + (k as i64) * 3600;
                let to = e0 + (k as i64) * 3600;
                if !is_sys {
                    match local_civil_lookup(name, from) {
                        Some(t) => {
                            if !(t.0 == self.date.year && t.1 == self.date.month && t.2
                                == self.date.day) {
                                proof {
                                    assert(!delivery_date_ok(
                                        tz.spec_iana_name(),
                                        Self::entry_instant(s0 as int, k as int),
                                        self.date,
                                    ));
                                }
                                return Err(ElspotError::DeliveryDateMismatch);
                            }
                        },
                        None => {
                            proof {
                                assert(local_civil(
                                    name@,
                                    Self::entry_instant(s0 as int, k as int),
                                ) is None);
                                assert(!delivery_date_ok(
                                    tz.spec_iana_name(),
                                    Self::entry_instant(s0 as int, k as int),
                                    self.date,
                                ));
                            }
                            return Err(ElspotError::LocalTimeUnresolved);
                        },
                    }
                }
                let cleaned_chars = clean_chars(row.columns[idx].value.as_str());
                if !check_wf_chars(&cleaned_chars) {
                    proof {
                        assert(!wf_decimal(cleaned(sel[k as int].columns@[idx as int].value@)));
                    }
                    return Err(ElspotError::InvalidDecimalValue);
                }
                proof {
                    crate::decimal::lemma_wf_chars(cleaned_chars@);
                }
                let value = string_from_chars(&cleaned_chars);
                let p = Price {
                    from,
                    to,
                    date: self.date,
                    region: region.to_owned(),
                    value,
                    currency_unit: cu,
                    market_time_unit: Mtu::Sixty,
                    power_unit: pu,
                };
                let ghost old_dv = prices.deep_view();
                prices.push(p);
                proof {
                    assert(prices.deep_view() =~= old_dv.push(p@));
                    assert(prices.deep_view()[k as int] == p@);
                    let sel2 = selected_rows(self.rows@.take(i2 as int + 1), idx as int);
                    assert(sel2[k as int] == self.rows@[i2 as int]);
                    assert(p@.value == cleaned(sel2[k as int].columns@[idx as int].value@));
                    assert(price_fields_ok(
                        p@,
                        sel2,
                        self.date,
                        region@,
                        self.units@[0]@,
                        idx as int,
                        k as int,
                        s0 as int,
                        e0 as int,
                    ));
                    assert(forall|j: int|
                        0 <= j < k ==> #[trigger] sel2[j] == presel[j]);
                    assert(forall|j: int|
                        0 <= j < k ==> #[trigger] prices.deep_view()[j] == old_dv[j]);
                }
            }
            i2 = i2 + 1;
        }
        proof {
            assert(self.rows@.take(nrows as int) =~= self.rows@);
            let dv = prices.deep_view();
            assert(dv.len() == sel.len());
            assert(Hours::spec_new(self.date, region@) == Ok::<Hours, RegionError>(hours));
            assert(hours.spec_count() == sel.len());
            assert(spec_tz_from_region(region@) == Ok::<crate::region_time::Timezone, RegionError>(
                tz,
            ));
            assert(name@ == tz.spec_iana_name());
            assert forall|k: int| 0 <= k < dv.len() implies price_fields_ok(
                #[trigger] dv[k],
                sel,
                self.date,
                region@,
                self.units@[0]@,
                idx as int,
                k,
                s0 as int,
                e0 as int,
            ) && (region@ != "SYS"@ ==> delivery_date_ok(name@, s0 + k * 3600, self.date)) by {
            }
            assert(self.extract_ok(region@, dv));
        }
        Ok(prices)
    }

    /// Row `i` is a lookup candidate for local hour `h`: a real hourly
    /// row whose local start hour is `h`.
    pub open spec fn is_candidate(self, h: int, i: int) -> bool {
        &&& 0 <= i < self.rows@.len()
        &&& !self.rows@[i].is_extra_row
        &&& self.rows@[i].start_time.hour == h
    }

    /// How many candidate rows for local hour `h` lie before index
    /// `upto`.
    pub open spec fn cand_count(self, h: int, upto: int) -> int
        decreases upto,
    {
        if upto <= 0 {
            0
        } else {
            self.cand_count(h, upto - 1) + if self.is_candidate(h, upto - 1) {
                1int
            } else {
                0int
            }
        }
    }

    /// Candidate counts grow along the rows.
    pub proof fn lemma_cand_count_monotone(self, h: int, a: int, b: int)
        requires
            0 <= a <= b,
        ensures
            self.cand_count(h, a) <= self.cand_count(h, b),
        decreases b,
    {
        if a < b {
            self.lemma_cand_count_monotone(h, a, b - 1);
        }
    }

    /// Two candidate rows preceded by the same number of candidates are
    /// the same row: the rank in the lookup's contract pins the row.
    pub proof fn lemma_candidate_rank_unique(self, h: int, i: int, j: int)
        requires
            self.is_candidate(h, i),
            self.is_candidate(h, j),
            self.cand_count(h, i) == self.cand_count(h, j),
        ensures
            i == j,
    {
        if i < j {
            self.lemma_cand_count_monotone(h, i + 1, j);
        } else if j < i {
            self.lemma_cand_count_monotone(h, j + 1, i);
        }
    }

    /// With exactly one candidate row for the hour in the whole feed,
    /// every candidate row is that row: in the single-match case the
    /// lookup returns the unique row carrying the requested local hour.
    pub proof fn lemma_single_candidate_unique(self, h: int, i: int, j: int)
        requires
            self.cand_count(h, self.rows@.len() as int) == 1,
            self.is_candidate(h, i),
            self.is_candidate(h, j),
        ensures
            i == j,
    {
        self.lemma_cand_count_monotone(h, 0, i);
        self.lemma_cand_count_monotone(h, i + 1, self.rows@.len() as int);
        self.lemma_cand_count_monotone(h, 0, j);
        self.lemma_cand_count_monotone(h, j + 1, self.rows@.len() as int);
        self.lemma_candidate_rank_unique(h, i, j);
    }

    /// Selects the one row that represents the UTC instant `utc_ts` for
    /// the region, by its local hour of day.
    ///
    /// With a single candidate row that row is it. Two candidates arise
    /// only when a fall-back transition repeats the hour: an instant of
    /// the first occurrence still lies under the earlier offset, so one
    /// more hour leaves the local clock within the same hour number
    /// (the clock is set back before that hour elapses); an instant of
    /// the second occurrence advances to the next hour number. No
    /// candidate, three or more, or any other outcome of the advance
    /// test is an error.
    #[verifier::loop_isolation(false)]
    #[verifier::rlimit(60)]
    #[verifier::spinoff_prover]
    pub fn row_for_utc_instant(&self, region: &str, utc_ts: i64) -> (r: ElspotResult<usize>)
        requires
            self.wf(),
        ensures
            ({
                let n = self.rows@.len() as int;
                match spec_tz_from_region(region@) {
                    Err(_) => r == Err::<usize, ElspotError>(ElspotError::UnsupportedRegion),
                    Ok(tz) => {
                        let name = tz.spec_iana_name();
                        match local_civil(name, utc_ts as int) {
                            None => r == Err::<usize, ElspotError>(ElspotError::LocalTimeUnresolved),
                            Some(t) => {
                                let h = t.3;
                                let total = self.cand_count(h, n);
                                match r {
                                    Ok(i) => self.is_candidate(h, i as int) && (
                                        (total == 1 && self.cand_count(h, i as int) == 0)
                                        || (total == 2 && (match local_civil(
                                            name,
                                            utc_ts as int + 3600,
                                        ) {
                                            Some(t2) => (t2.3 == h && self.cand_count(
                                                h,
                                                i as int,
                                            ) == 0) || (t2.3 == (h + 1) % 24 && self.cand_count(
                                                h,
                                                i as int,
                                            ) == 1),
                                            None => false,
                                        }))),
                                    Err(e) => {
                                        ||| (e == ElspotError::HourNotFound && total == 0)
                                        ||| (e == ElspotError::AmbiguousHourUnresolved && (total
                                            >= 3 || (total == 2 && (match local_civil(
                                            name,
                                            utc_ts as int + 3600,
                                        ) {
                                            Some(t2) => t2.3 != (h + 1) % 24 && t2.3 != h,
                                            None => false,
                                        }))))
                                        ||| (e == ElspotError::LocalTimeUnresolved && total == 2
                                            && (local_civil(name, utc_ts as int + 3600) is None
                                            || utc_ts as int + 3600 > i64::MAX))
                                    },
                                }
                            },
                        }
                    },
                }
            }),
    {
        let tz = match tz_from_region(region) {
            Ok(t) => t,
            Err(_) => {
                return Err(ElspotError::UnsupportedRegion);
            },
        };
        let name = tz.iana_name();
        let t = match local_civil_lookup(name, utc_ts) {
            Some(t) => t,
            None => {
                return Err(ElspotError::LocalTimeUnresolved);
            },
        };
        let h = t.3;
        let n = self.rows.len();
        let mut count: usize = 0;
        let mut first: usize = 0;
        let mut second: usize = 0;
        let mut i: usize = 0;
        while i < n
            invariant
                i <= n,
                count == self.cand_count(h as int, i as int),
                count <= i,
                count >= 1 ==> self.is_candidate(h as int, first as int) && self.cand_count(
                    h as int,
                    first as int,
                ) == 0,
                count >= 2 ==> self.is_candidate(h as int, second as int) && self.cand_count(
                    h as int,
                    second as int,
                ) == 1,
            decreases n - i,
        {
            let row = &self.rows[i];
            if !row.is_extra_row && row.start_time.hour == h {
                if count == 0 {
                    first = i;
                } else if count == 1 {
                    second = i;
                }
                count = count + 1;
            }
            i = i + 1;
        }
        if count == 0 {
            return Err(ElspotError::HourNotFound);
        }
        if count == 1 {
            return Ok(first);
        }
        if count > 2 {
            return Err(ElspotError::AmbiguousHourUnresolved);
        }
        let next_ts = match utc_ts.checked_add(3600) {
            Some(v) => v,
            None => {
                return Err(ElspotError::LocalTimeUnresolved);
            },
        };
        let t2 = match local_civil_lookup(name, next_ts) {
            Some(t2) => t2,
            None => {
                return Err(ElspotError::LocalTimeUnresolved);
            },
        };
        let next_hour = if h == 23 {
            0
        } else {
            h + 1
        };
        if t2.3 == h {
            Ok(first)
        } else if t2.3 == next_hour {
            Ok(second)
        } else {
            Err(ElspotError::AmbiguousHourUnresolved)
        }
    }

    /// Extracts the price records of every region of the feed, one
    /// sequence per column, in column order. A failing region fails the
    /// whole extraction with its error: every failure kind left is a
    /// sign of feed corruption, which recovers nothing by skipping.
    #[verifier::loop_isolation(false)]
    pub fn extract_prices_all_regions(&self) -> (r: ElspotResult<Vec<Vec<Price>>>)
        requires
            self.wf(),
        ensures
            match r {
                Ok(all) => all@.len() == self.rows@[0].columns@.len() && forall|j: int|
                    0 <= j < all@.len() ==> self.extract_ok(
                        self.rows@[0].columns@[j].name@,
                        (#[trigger] all@[j]).deep_view(),
                    ),
                Err(e) => exists|j: int|
                    0 <= j < self.rows@[0].columns@.len() && self.extract_err(
                        #[trigger] self.rows@[0].columns@[j].name@,
                        e,
                    ),
            },
    {
        let names = self.regions();
        let mut all: Vec<Vec<Price>> = Vec::new();
        let mut i: usize = 0;
        while i < names.len()
            invariant
                i <= names@.len(),
                all@.len() == i,
                forall|j: int|
                    0 <= j < i ==> self.extract_ok(
                        self.rows@[0].columns@[j].name@,
                        (#[trigger] all@[j]).deep_view(),
                    ),
            decreases names@.len() - i,
        {
            match self.extract_prices_for_region(names[i]) {
                Ok(prices) => {
                    let ghost prev = all@;
                    all.push(prices);
                    proof {
                        assert(all@[i as int] == prices);
                        assert(names@[i as int]@ == self.rows@[0].columns@[i as int].name@);
                        assert(self.extract_ok(
                            self.rows@[0].columns@[i as int].name@,
                            prices.deep_view(),
                        ));
                        assert(forall|j: int| 0 <= j < i ==> all@[j] == prev[j]);
                    }
                },
                Err(e) => {
                    proof {
                        assert(names@[i as int]@ == self.rows@[0].columns@[i as int].name@);
                        assert(self.extract_err(self.rows@[0].columns@[i as int].name@, e));
                    }
                    return Err(e);
                },
            }
            i = i + 1;
        }
        Ok(all)
    }
}

} // verus!
