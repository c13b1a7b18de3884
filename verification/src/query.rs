//! Options of a day-ahead price query: currency, date and regions,
//! each validated before it is accepted.

use vstd::prelude::*;

use crate::currencies::{currency_is_supported, spec_currency_supported};
use crate::dates::{spec_date_format_ok, spec_date_of, parse_date};
use crate::error::{ElspotError, ElspotResult, RegionError, RegionResult, UnitError, UnitResult};
use crate::regions::{region_is_supported, spec_region_supported};
use crate::text::str_eq;

verus! {

/// The validated parts of a price query.
#[derive(Clone, Debug)]
pub struct QueryOptions {
    pub currency: Option<String>,
    pub date: Option<String>,
    pub regions: Vec<String>,
}

/// The region list after adding the given codes in order, each skipped
/// if already present.
pub open spec fn spec_add_regions(cur: Seq<Seq<char>>, inp: Seq<Seq<char>>) -> Seq<Seq<char>>
    decreases inp.len(),
{
    if inp.len() == 0 {
        cur
    } else {
        let next = if cur.contains(inp[0]) {
            cur
        } else {
            cur.push(inp[0])
        };
        spec_add_regions(next, inp.skip(1))
    }
}

impl QueryOptions {
    /// Starts an empty query.
    pub fn new() -> (r: QueryOptions)
        ensures
            r.currency is None,
            r.date is None,
            r.regions@.len() == 0,
    {
        QueryOptions { currency: None, date: None, regions: Vec::new() }
    }

    /// Sets the quote currency; a code outside the supported set is
    /// rejected and changes nothing.
    pub fn set_currency(&mut self, currency: &str) -> (r: UnitResult<()>)
        ensures
            match r {
                Ok(_) => spec_currency_supported(currency@)
                    && (final(self).currency matches Some(c) && c@ == currency@)
                    && final(self).date == old(self).date
                    && final(self).regions == old(self).regions,
                Err(e) => e == UnitError::InvalidCurrencyUnit && !spec_currency_supported(
                    currency@,
                ) && *final(self) == *old(self),
            },
    {
        if currency_is_supported(currency) {
            self.currency = Some(currency.to_owned());
            Ok(())
        } else {
            Err(UnitError::InvalidCurrencyUnit)
        }
    }

    /// Sets the delivery date; a string that does not spell a real
    /// `YYYY-MM-DD` calendar day is rejected and changes nothing.
    pub fn set_date(&mut self, date: &str) -> (r: ElspotResult<()>)
        ensures
            match r {
                Ok(_) => spec_date_format_ok(date@) && spec_date_of(date@).wf()
                    && (final(self).date matches Some(d) && d@ == date@)
                    && final(self).currency == old(self).currency
                    && final(self).regions == old(self).regions,
                Err(e) => e == ElspotError::InvalidDate && !(spec_date_format_ok(date@)
                    && spec_date_of(date@).wf()) && *final(self) == *old(self),
            },
    {
        match parse_date(date) {
            Some(_) => {
                self.date = Some(date.to_owned());
                Ok(())
            },
            None => Err(ElspotError::InvalidDate),
        }
    }

    /// Adds regions to the query, keeping each at most once, in the
    /// order first seen; if any code is unsupported, nothing changes.
    #[verifier::loop_isolation(false)]
    pub fn set_regions(&mut self, regions: &Vec<String>) -> (r: RegionResult<()>)
        ensures
            match r {
                Ok(_) => (forall|i: int|
                    0 <= i < regions@.len() ==> spec_region_supported(
                        #[trigger] regions@[i]@,
                    )) && final(self).regions.deep_view() == spec_add_regions(
                    old(self).regions.deep_view(),
                    regions.deep_view(),
                ) && final(self).currency == old(self).currency
                    && final(self).date == old(self).date,
                Err(e) => e == RegionError::RegionNotSupported && (exists|i: int|
                    0 <= i < regions@.len() && !spec_region_supported(#[trigger] regions@[i]@))
                    && *final(self) == *old(self),
            },
    {
        let mut i: usize = 0;
        while i < regions.len()
            invariant
                i <= regions@.len(),
                forall|j: int| 0 <= j < i ==> spec_region_supported(#[trigger] regions@[j]@),
            decreases regions@.len() - i,
        {
            if !region_is_supported(regions[i].as_str()) {
                return Err(RegionError::RegionNotSupported);
            }
            i = i + 1;
        }
        let ghost inp = regions.deep_view();
        proof {
            assert(inp.skip(0) =~= inp);
        }
        let mut k: usize = 0;
        while k < regions.len()
            invariant
                k <= regions@.len(),
                self.currency == old(self).currency,
                self.date == old(self).date,
                spec_add_regions(self.regions.deep_view(), inp.skip(k as int))
                    == spec_add_regions(old(self).regions.deep_view(), inp),
            decreases regions@.len() - k,
        {
            let ghost pre = self.regions.deep_view();
            let code = &regions[k];
            if !contains_string(&self.regions, code.as_str()) {
                let ghost old_regions = self.regions.deep_view();
                self.regions.push(code.clone());
                proof {
                    assert(self.regions.deep_view() =~= old_regions.push(inp[k as int]));
                }
            }
            proof {
                assert(inp.skip(k as int)[0] == inp[k as int]);
                assert(inp.skip(k as int).skip(1) =~= inp.skip(k as int + 1));
                assert(spec_add_regions(pre, inp.skip(k as int)) == spec_add_regions(
                    self.regions.deep_view(),
                    inp.skip(k as int + 1),
                ));
            }
            k = k + 1;
        }
        proof {
            assert(inp.skip(regions@.len() as int) =~= Seq::<Seq<char>>::empty());
        }
        Ok(())
    }
}

/// The strings joined by single commas, in order.
pub open spec fn spec_join_commas(v: Seq<Seq<char>>) -> Seq<char>
    decreases v.len(),
{
    if v.len() == 0 {
        Seq::empty()
    } else if v.len() == 1 {
        v[0]
    } else {
        spec_join_commas(v.drop_last()) + seq![','] + v.last()
    }
}

/// Joins the strings with single commas, in order.
#[verifier::loop_isolation(false)]
pub fn join_commas(v: &Vec<String>) -> (r: String)
    ensures
        r@ == spec_join_commas(v.deep_view()),
{
    let ghost dv = v.deep_view();
    let mut out = String::new();
    let mut i: usize = 0;
    proof {
        reveal_strlit(",");
        assert(","@ =~= seq![',']);
        assert(dv.take(0) =~= Seq::<Seq<char>>::empty());
    }
    while i < v.len()
        invariant
            i <= v@.len(),
            out@ == spec_join_commas(dv.take(i as int)),
        decreases v@.len() - i,
    {
        if i > 0 {
            out.append(",");
        }
        out.append(v[i].as_str());
        proof {
            assert(dv.take(i as int + 1).drop_last() =~= dv.take(i as int));
            assert(dv.take(i as int + 1).last() == dv[i as int]);
            if i == 0 {
                assert(out@ =~= spec_join_commas(dv.take(1)));
            }
        }
        i = i + 1;
    }
    proof {
        assert(dv.take(dv.len() as int) =~= dv);
    }
    out
}

/// The given base URL with the four query pairs appended in order,
/// percent-encoded as the portal expects; nothing if the base does not
/// parse as a URL.
pub uninterp spec fn url_with_pairs(
    base: Seq<char>,
    k1: Seq<char>,
    v1: Seq<char>,
    k2: Seq<char>,
    v2: Seq<char>,
    k3: Seq<char>,
    v3: Seq<char>,
    k4: Seq<char>,
    v4: Seq<char>,
) -> Option<Seq<char>>;

/// Relies on `url::Url::parse` and `Url::query_pairs_mut`: the base URL
/// with the four query pairs appended and percent-encoded, a function
/// of the given strings alone. There is no result exactly when the base
/// fails to parse as a URL; the portal address is a well-formed
/// absolute URL, so on it the parse succeeds.
#[verifier::external_body]
fn append_query_pairs(
    base: &str,
    k1: &str,
    v1: &str,
    k2: &str,
    v2: &str,
    k3: &str,
    v3: &str,
    k4: &str,
    v4: &str,
) -> (r: Option<String>)
    ensures
        match r {
            Some(u) => url_with_pairs(base@, k1@, v1@, k2@, v2@, k3@, v3@, k4@, v4@) == Some(u@),
            None => url_with_pairs(base@, k1@, v1@, k2@, v2@, k3@, v3@, k4@, v4@) is None,
        },
        base@ == "https://dataportal-api.nordpoolgroup.com/api/DayAheadPrices"@ ==> r is Some,
{
    let mut u = match url::Url::parse(base) {
        Ok(u) => u,
        Err(_) => return None,
    };
    u.query_pairs_mut().append_pair(k1, v1).append_pair(k2, v2).append_pair(k3, v3).append_pair(
        k4,
        v4,
    );
    Some(u.as_str().to_string())
}

/// Returns the address of the day-ahead price portal.
pub fn portal_base_url() -> (r: &'static str)
    ensures
        r@ == "https://dataportal-api.nordpoolgroup.com/api/DayAheadPrices"@,
{
    "https://dataportal-api.nordpoolgroup.com/api/DayAheadPrices"
}

impl QueryOptions {
    /// Builds the portal query URL; nothing exactly when a currency, a
    /// date or a region is missing.
    pub fn build_url(&self) -> (r: Option<String>)
        ensures
            match r {
                Some(u) => (self.currency matches Some(c) && self.date matches Some(d)
                    && self.regions@.len() > 0 && url_with_pairs(
                    "https://dataportal-api.nordpoolgroup.com/api/DayAheadPrices"@,
                    "market"@,
                    "DayAhead"@,
                    "currency"@,
                    c@,
                    "date"@,
                    d@,
                    "deliveryArea"@,
                    spec_join_commas(self.regions.deep_view()),
                ) == Some(u@)),
                None => self.currency is None || self.date is None || self.regions@.len() == 0,
            },
    {
        let currency = match &self.currency {
            Some(c) => c,
            None => {
                return None;
            },
        };
        let date = match &self.date {
            Some(d) => d,
            None => {
                return None;
            },
        };
        if self.regions.len() == 0 {
            return None;
        }
        let regions = join_commas(&self.regions);
        append_query_pairs(
            portal_base_url(),
            "market",
            "DayAhead",
            "currency",
            currency.as_str(),
            "date",
            date.as_str(),
            "deliveryArea",
            regions.as_str(),
        )
    }
}

/// Whether some element of the vector spells the same string.
pub fn contains_string(v: &Vec<String>, s: &str) -> (r: bool)
    ensures
        r == v.deep_view().contains(s@),
{
    let mut i: usize = 0;
    while i < v.len()
        invariant
            i <= v@.len(),
            forall|j: int| 0 <= j < i ==> v.deep_view()[j] != s@,
        decreases v@.len() - i,
    {
        if str_eq(v[i].as_str(), s) {
            proof {
                assert(v.deep_view()[i as int] == s@);
            }
            return true;
        }
        i = i + 1;
    }
    false
}

} // verus!
