//! When market data is too old to be used without a warning, and which
//! days of a requested range still lack cached data.
use vstd::prelude::*;
use crate::calendar::{is_weekend, valid_day, weekday_index, weekday_of, MAX_DAY};
use crate::models::asset::{Asset, AssetType};
use crate::models::market_data::{MarketDataLimitation, MarketDataLimitationClassification, MarketDataSubject};
use crate::text::copy_text;

verus! {

/// A stock price (or FX rate) this many completed weekdays old is stale.
pub const STALE_COMPLETED_WEEKDAY_WARNING_THRESHOLD: u32 = 4;

/// Fund and ETF prices are reported late; a gap of up to this many days
/// is expected.
pub const FUND_REPORTING_LAG_DAYS: i64 = 7;

// ---------------------------------------------------------------------------
// Completed weekdays
// ---------------------------------------------------------------------------

/// The number of weekdays (Monday to Friday) among the days
/// `lo + 1 ..= hi`.
pub open spec fn weekdays_between(lo: int, hi: int) -> int
    decreases hi - lo,
{
    if hi <= lo {
        0
    } else {
        weekdays_between(lo, hi - 1) + if is_weekend(hi) {
            0int
        } else {
            1int
        }
    }
}

pub proof fn lemma_weekdays_between_bounds(lo: int, hi: int)
    ensures
        0 <= weekdays_between(lo, hi),
        lo <= hi ==> weekdays_between(lo, hi) <= hi - lo,
    decreases hi - lo,
{
    if hi > lo {
        lemma_weekdays_between_bounds(lo, hi - 1);
    }
}

/// Counting weekdays over consecutive ranges adds up.
pub proof fn lemma_weekdays_between_split(a: int, b: int, c: int)
    requires
        a <= b <= c,
    ensures
        weekdays_between(a, c) == weekdays_between(a, b) + weekdays_between(b, c),
    decreases c - b,
{
    if c > b {
        lemma_weekdays_between_split(a, b, c - 1);
    }
}

/// Any seven consecutive days hold exactly five weekdays.
pub proof fn lemma_week_has_five_weekdays(lo: int)
    ensures
        weekdays_between(lo, lo + 7) == 5,
{
    reveal_with_fuel(weekdays_between, 8);
    let w = weekday_of(lo + 1);
    assert(0 <= w < 7);
    assert(weekday_of(lo + 2) == (w + 1) % 7);
    assert(weekday_of(lo + 3) == (w + 2) % 7);
    assert(weekday_of(lo + 4) == (w + 3) % 7);
    assert(weekday_of(lo + 5) == (w + 4) % 7);
    assert(weekday_of(lo + 6) == (w + 5) % 7);
    assert(weekday_of(lo + 7) == (w + 6) % 7);
}

/// The number of completed weekdays after `latest_date` up to and
/// including `requested_end`.
pub fn completed_weekdays_between(latest_date: i32, requested_end: i32) -> (r: u32)
    requires
        valid_day(latest_date as int),
        valid_day(requested_end as int),
    ensures
        r as int == weekdays_between(latest_date as int, requested_end as int),
{
    let mut count: u32 = 0;
    let mut current: i32 = latest_date;
    if current >= requested_end {
        return 0;
    }
    while current < requested_end
        invariant
            valid_day(latest_date as int),
            valid_day(requested_end as int),
            latest_date <= current <= requested_end,
            count as int == weekdays_between(latest_date as int, current as int),
        decreases requested_end - current,
    {
        current = current + 1;
        proof {
            lemma_weekdays_between_bounds(latest_date as int, current as int);
        }
        if weekday_index(current) < 5 {
            count = count + 1;
        }
    }
    count
}

// ---------------------------------------------------------------------------
// Limitations
// ---------------------------------------------------------------------------

/// The classification of an asset's price data that ends on `latest` when
/// data through `requested_end` was asked for, or `None` when the gap is
/// acceptable: up to date, a fund or ETF within its reporting lag, or a
/// stock fewer than the threshold of completed weekdays behind.
pub open spec fn asset_limitation_class(asset_type: AssetType, latest: int, requested_end: int) -> Option<MarketDataLimitationClassification> {
    if latest >= requested_end {
        None
    } else {
        match asset_type {
            AssetType::Fund | AssetType::Etf => if requested_end - latest <= FUND_REPORTING_LAG_DAYS {
                None
            } else {
                Some(MarketDataLimitationClassification::ActionableReportingLag)
            },
            AssetType::Stock => if weekdays_between(latest, requested_end) < STALE_COMPLETED_WEEKDAY_WARNING_THRESHOLD {
                None
            } else {
                Some(MarketDataLimitationClassification::ActionableStaleData)
            },
        }
    }
}

/// The classification of FX data ending on `latest`.
pub open spec fn fx_limitation_class(latest: int, requested_end: int) -> Option<MarketDataLimitationClassification> {
    if latest >= requested_end || weekdays_between(latest, requested_end) < STALE_COMPLETED_WEEKDAY_WARNING_THRESHOLD {
        None
    } else {
        Some(MarketDataLimitationClassification::ActionableStaleData)
    }
}

/// A limitation about an asset's prices with the given dates and class.
pub open spec fn asset_limitation_is(l: MarketDataLimitation, asset: Asset, latest: int, requested_end: int, c: MarketDataLimitationClassification) -> bool {
    &&& l.classification == c
    &&& l.latest_available_date == Some(latest as i32)
    &&& l.requested_end_date == requested_end
    &&& match l.subject {
        MarketDataSubject::Asset { ticker, name, asset_type } => ticker@ == asset.ticker@ && name@ == asset.name@
            && asset_type == asset.asset_type,
        MarketDataSubject::FxRate { .. } => false,
    }
}

/// A limitation about a currency's FX rates with the given dates and class.
pub open spec fn fx_limitation_is(l: MarketDataLimitation, currency: Seq<char>, latest: int, requested_end: int, c: MarketDataLimitationClassification) -> bool {
    &&& l.classification == c
    &&& l.latest_available_date == Some(latest as i32)
    &&& l.requested_end_date == requested_end
    &&& match l.subject {
        MarketDataSubject::FxRate { currency: cur } => cur@ == currency,
        MarketDataSubject::Asset { .. } => false,
    }
}

pub fn classify_asset_limitation(asset: &Asset, latest_date: i32, requested_end: i32) -> (r: Option<MarketDataLimitation>)
    requires
        valid_day(latest_date as int),
        valid_day(requested_end as int),
    ensures
        match asset_limitation_class(asset.asset_type, latest_date as int, requested_end as int) {
            None => r is None,
            Some(c) => r is Some && asset_limitation_is(r->Some_0, *asset, latest_date as int, requested_end as int, c),
        },
{
    if latest_date >= requested_end {
        return None;
    }
    let classification = match asset.asset_type {
        AssetType::Fund | AssetType::Etf => {
            if (requested_end as i64) - (latest_date as i64) <= FUND_REPORTING_LAG_DAYS {
                return None;
            }
            MarketDataLimitationClassification::ActionableReportingLag
        },
        AssetType::Stock => {
            if completed_weekdays_between(latest_date, requested_end) < STALE_COMPLETED_WEEKDAY_WARNING_THRESHOLD {
                return None;
            }
            MarketDataLimitationClassification::ActionableStaleData
        },
    };
    Some(
        MarketDataLimitation {
            subject: MarketDataSubject::Asset {
                ticker: copy_text(asset.ticker.as_str()),
                name: copy_text(asset.name.as_str()),
                asset_type: asset.asset_type,
            },
            latest_available_date: Some(latest_date),
            requested_end_date: requested_end,
            classification,
        },
    )
}

pub fn classify_fx_limitation(currency: &str, latest_date: i32, requested_end: i32) -> (r: Option<MarketDataLimitation>)
    requires
        valid_day(latest_date as int),
        valid_day(requested_end as int),
    ensures
        match fx_limitation_class(latest_date as int, requested_end as int) {
            None => r is None,
            Some(c) => r is Some && fx_limitation_is(r->Some_0, currency@, latest_date as int, requested_end as int, c),
        },
{
    if latest_date >= requested_end
        || completed_weekdays_between(latest_date, requested_end) < STALE_COMPLETED_WEEKDAY_WARNING_THRESHOLD {
        return None;
    }
    Some(
        MarketDataLimitation {
            subject: MarketDataSubject::FxRate { currency: copy_text(currency) },
            latest_available_date: Some(latest_date),
            requested_end_date: requested_end,
            classification: MarketDataLimitationClassification::ActionableStaleData,
        },
    )
}

/// The limitation reported for an asset with no price data at all.
pub open spec fn missing_asset_limitation_is(l: MarketDataLimitation, asset: Asset, requested_end: int) -> bool {
    &&& l.classification == MarketDataLimitationClassification::ActionableMissingData
    &&& l.latest_available_date is None
    &&& l.requested_end_date == requested_end
    &&& match l.subject {
        MarketDataSubject::Asset { ticker, name, asset_type } => ticker@ == asset.ticker@ && name@ == asset.name@
            && asset_type == asset.asset_type,
        MarketDataSubject::FxRate { .. } => false,
    }
}

/// The limitation reported for a currency with no FX data at all.
pub open spec fn missing_fx_limitation_is(l: MarketDataLimitation, currency: Seq<char>, requested_end: int) -> bool {
    &&& l.classification == MarketDataLimitationClassification::ActionableMissingData
    &&& l.latest_available_date is None
    &&& l.requested_end_date == requested_end
    &&& match l.subject {
        MarketDataSubject::FxRate { currency: cur } => cur@ == currency,
        MarketDataSubject::Asset { .. } => false,
    }
}

pub fn missing_asset_limitation(asset: &Asset, requested_end: i32) -> (r: MarketDataLimitation)
    ensures
        missing_asset_limitation_is(r, *asset, requested_end as int),
{
    MarketDataLimitation {
        subject: MarketDataSubject::Asset {
            ticker: copy_text(asset.ticker.as_str()),
            name: copy_text(asset.name.as_str()),
            asset_type: asset.asset_type,
        },
        latest_available_date: None,
        requested_end_date: requested_end,
        classification: MarketDataLimitationClassification::ActionableMissingData,
    }
}

pub fn missing_fx_limitation(currency: &str, requested_end: i32) -> (r: MarketDataLimitation)
    ensures
        missing_fx_limitation_is(r, currency@, requested_end as int),
{
    MarketDataLimitation {
        subject: MarketDataSubject::FxRate { currency: copy_text(currency) },
        latest_available_date: None,
        requested_end_date: requested_end,
        classification: MarketDataLimitationClassification::ActionableMissingData,
    }
}

/// Data that reaches the requested end never carries a limitation.
pub proof fn lemma_up_to_date_data_has_no_limitation(asset_type: AssetType, latest: int, requested_end: int)
    requires
        latest >= requested_end,
    ensures
        asset_limitation_class(asset_type, latest, requested_end) is None,
        fx_limitation_class(latest, requested_end) is None,
{
}

/// A stock or FX series behind by at least a full week is always stale.
pub proof fn lemma_week_old_data_is_stale(latest: int, requested_end: int)
    requires
        latest + 7 <= requested_end,
    ensures
        asset_limitation_class(AssetType::Stock, latest, requested_end)
            == Some(MarketDataLimitationClassification::ActionableStaleData),
        fx_limitation_class(latest, requested_end) == Some(MarketDataLimitationClassification::ActionableStaleData),
{
    lemma_week_has_five_weekdays(latest);
    lemma_weekdays_between_split(latest, latest + 7, requested_end);
    lemma_weekdays_between_bounds(latest + 7, requested_end);
}

/// Funds and ETFs are judged only by their reporting lag: data at most a
/// week behind the requested end carries no limitation, and data further
/// behind is a reporting lag, never stale data.
pub proof fn lemma_fund_like_prices_are_judged_by_reporting_lag(asset_type: AssetType, latest: int, requested_end: int)
    requires
        asset_type == AssetType::Fund || asset_type == AssetType::Etf,
    ensures
        requested_end - latest <= 7 ==> asset_limitation_class(asset_type, latest, requested_end) is None,
        requested_end - latest > 7 ==> asset_limitation_class(asset_type, latest, requested_end)
            == Some(MarketDataLimitationClassification::ActionableReportingLag),
        asset_limitation_class(asset_type, latest, requested_end) != Some(
            MarketDataLimitationClassification::ActionableStaleData,
        ),
{
}

/// An ETF is judged exactly as a fund.
pub proof fn lemma_etf_judged_as_fund(latest: int, requested_end: int)
    ensures
        asset_limitation_class(AssetType::Etf, latest, requested_end) == asset_limitation_class(
            AssetType::Fund,
            latest,
            requested_end,
        ),
{
}

// ---------------------------------------------------------------------------
// Missing intervals
// ---------------------------------------------------------------------------

/// An inclusive range of days.
#[derive(Clone, Copy, Debug, PartialEq, Eq, Structural)]
pub struct DateInterval {
    pub start: i32,
    pub end: i32,
}

pub open spec fn in_interval(i: DateInterval, d: int) -> bool {
    i.start <= d <= i.end
}

/// Whether day `d` is among the cached days.
pub open spec fn day_cached(cached: Seq<i32>, d: int) -> bool {
    exists|k: int| 0 <= k < cached.len() && #[trigger] cached[k] as int == d
}

/// `r` is exactly the maximal runs of uncached days in `start ..= end`,
/// in order.
pub open spec fn are_missing_runs(r: Seq<DateInterval>, start: int, end: int, cached: Seq<i32>) -> bool {
    &&& forall|k: int| 0 <= k < r.len() ==> start <= #[trigger] r[k].start <= r[k].end <= end
    &&& forall|k: int, d: int| 0 <= k < r.len() && #[trigger] in_interval(r[k], d) ==> !day_cached(cached, d)
    &&& forall|k: int| 0 <= k < r.len() ==> (#[trigger] r[k].start == start || day_cached(cached, r[k].start - 1))
    &&& forall|k: int| 0 <= k < r.len() ==> (#[trigger] r[k].end == end || day_cached(cached, r[k].end + 1))
    &&& forall|k1: int, k2: int| 0 <= k1 < k2 < r.len() ==> #[trigger] r[k1].end < #[trigger] r[k2].start
    &&& forall|d: int| start <= d <= end && !day_cached(cached, d) ==> exists|k: int| 0 <= k < r.len() && #[trigger] in_interval(r[k], d)
}

fn is_cached(cached: &[i32], d: i32) -> (r: bool)
    ensures
        r == day_cached(cached@, d as int),
{
    let mut k: usize = 0;
    while k < cached.len()
        invariant
            k <= cached@.len(),
            forall|m: int| 0 <= m < k ==> cached@[m] != d,
        decreases cached@.len() - k,
    {
        if cached[k] == d {
            assert(cached@[k as int] as int == d as int);
            return true;
        }
        k = k + 1;
    }
    assert forall|m: int| 0 <= m < cached@.len() implies #[trigger] cached@[m] as int != d as int by {}
    false
}

/// The maximal runs of days in `start ..= end` that have no cached value,
/// in order.
pub fn missing_intervals(start: i32, end: i32, cached_dates: &[i32]) -> (r: Vec<DateInterval>)
    requires
        start > end || end < MAX_DAY,
    ensures
        are_missing_runs(r@, start as int, end as int, cached_dates@),
{
    let mut intervals: Vec<DateInterval> = Vec::new();
    if start > end {
        return intervals;
    }
    let ghost cached = cached_dates@;
    let mut missing_start: Option<i32> = None;
    let mut current: i32 = start;
    while current <= end
        invariant
            cached == cached_dates@,
            start <= current <= end + 1,
            end < MAX_DAY,
            forall|k: int| 0 <= k < intervals@.len() ==> start <= #[trigger] intervals@[k].start <= intervals@[k].end < current,
            forall|k: int, d: int| 0 <= k < intervals@.len() && #[trigger] in_interval(intervals@[k], d) ==> !day_cached(cached, d),
            forall|k: int| 0 <= k < intervals@.len() ==> (#[trigger] intervals@[k].start == start || day_cached(cached, intervals@[k].start - 1)),
            forall|k: int| 0 <= k < intervals@.len() ==> day_cached(cached, #[trigger] intervals@[k].end + 1),
            forall|k1: int, k2: int| 0 <= k1 < k2 < intervals@.len() ==> #[trigger] intervals@[k1].end < #[trigger] intervals@[k2].start,
            missing_start is Some ==> start <= missing_start->Some_0 < current,
            missing_start is Some ==> forall|d: int| missing_start->Some_0 <= d < current ==> !day_cached(cached, d),
            missing_start is Some ==> (missing_start->Some_0 == start || day_cached(cached, missing_start->Some_0 - 1)),
            missing_start is Some ==> forall|k: int| 0 <= k < intervals@.len() ==> #[trigger] intervals@[k].end < missing_start->Some_0,
            missing_start is Some ==> forall|d: int| start <= d < current && !day_cached(cached, d) ==> (d >= missing_start->Some_0 || exists|k: int| 0 <= k < intervals@.len() && #[trigger] in_interval(intervals@[k], d)),
            missing_start is None ==> (current == start || day_cached(cached, current - 1)),
            missing_start is None ==> forall|d: int| start <= d < current && !day_cached(cached, d) ==> exists|k: int| 0 <= k < intervals@.len() && #[trigger] in_interval(intervals@[k], d),
        decreases end + 1 - current,
    {
        let ghost before = intervals@;
        if is_cached(cached_dates, current) {
            if let Some(interval_start) = missing_start {
                let interval = DateInterval { start: interval_start, end: current - 1 };
                intervals.push(interval);
                proof {
                    assert(intervals@.last() == interval);
                    assert forall|k: int, d: int| 0 <= k < intervals@.len() && #[trigger] in_interval(intervals@[k], d) implies !day_cached(cached, d) by {
                        if k < before.len() {
                            assert(intervals@[k] == before[k]);
                        }
                    }
                    assert forall|d: int| start <= d < current + 1 && !day_cached(cached, d) implies exists|k: int| 0 <= k < intervals@.len() && #[trigger] in_interval(intervals@[k], d) by {
                        if d >= interval_start {
                            assert(in_interval(intervals@[before.len() as int], d));
                        } else {
                            let k = choose|k: int| 0 <= k < before.len() && #[trigger] in_interval(before[k], d);
                            assert(intervals@[k] == before[k]);
                            assert(in_interval(intervals@[k], d));
                        }
                    }
                }
                missing_start = None;
            } else {
                proof {
                    assert forall|d: int| start <= d < current + 1 && !day_cached(cached, d) implies exists|k: int| 0 <= k < intervals@.len() && #[trigger] in_interval(intervals@[k], d) by {
                        assert(d < current);
                    }
                }
            }
        } else if missing_start.is_none() {
            missing_start = Some(current);
            proof {
                assert forall|k: int| 0 <= k < intervals@.len() implies #[trigger] intervals@[k].end < current by {
                    assert(start <= intervals@[k].start);
                }
                assert forall|d: int| start <= d < current + 1 && !day_cached(cached, d) implies (d >= current || exists|k: int| 0 <= k < intervals@.len() && #[trigger] in_interval(intervals@[k], d)) by {
                    if d < current {
                        assert(exists|k: int| 0 <= k < intervals@.len() && #[trigger] in_interval(intervals@[k], d));
                    }
                }
            }
        } else {
            proof {
                let m = missing_start->Some_0;
                assert forall|d: int| start <= d < current + 1 && !day_cached(cached, d) implies (d >= m || exists|k: int| 0 <= k < intervals@.len() && #[trigger] in_interval(intervals@[k], d)) by {
                    if d < current && d < m {
                        assert(exists|k: int| 0 <= k < intervals@.len() && #[trigger] in_interval(intervals@[k], d));
                    }
                }
                assert forall|d: int| m <= d < current + 1 implies !day_cached(cached, d) by {
                    if d < current {
                        assert(!day_cached(cached, d));
                    }
                }
            }
        }
        current = current + 1;
    }
    if let Some(interval_start) = missing_start {
        let ghost before = intervals@;
        let interval = DateInterval { start: interval_start, end };
        intervals.push(interval);
        proof {
            assert(intervals@.last() == interval);
            assert forall|k: int, d: int| 0 <= k < intervals@.len() && #[trigger] in_interval(intervals@[k], d) implies !day_cached(cached, d) by {
                if k < before.len() {
                    assert(intervals@[k] == before[k]);
                }
            }
            assert forall|d: int| start <= d <= end && !day_cached(cached, d) implies exists|k: int| 0 <= k < intervals@.len() && #[trigger] in_interval(intervals@[k], d) by {
                if d >= interval_start {
                    assert(in_interval(intervals@[before.len() as int], d));
                } else {
                    let k = choose|k: int| 0 <= k < before.len() && #[trigger] in_interval(before[k], d);
                    assert(intervals@[k] == before[k]);
                    assert(in_interval(intervals@[k], d));
                }
            }
        }
    }
    intervals
}

} // verus!
