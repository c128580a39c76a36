//! Historical market data: which series a set of assets needs, how each
//! series is looked up at its source, and what the cached coverage of those
//! series means for valuation.  Fetching and caching are I/O and happen
//! outside this module; it decides what to ask for and what the answers mean.
use vstd::prelude::*;
use crate::calendar::{format_iso_day, iso_day, iso_text, parse_iso_day, valid_day, MAX_DAY, MIN_DAY};
use crate::constants::BASE_CURRENCY;
use crate::models::asset::{asset_type_text, Asset, AssetType};
use crate::models::market_data::{MarketDataLimitation, ValuationMarketDataAvailability};
use crate::services::exchange_rates::pair_name;
use crate::services::market_data_policy::{
    DateInterval,
    asset_limitation_class, asset_limitation_is, classify_asset_limitation, classify_fx_limitation,
    fx_limitation_class, fx_limitation_is, missing_asset_limitation, missing_asset_limitation_is,
    missing_fx_limitation, missing_fx_limitation_is,
};
use crate::text::{
    ascii_upper_text, chars_of, copy_text, insert_sorted_unique, is_ascii_alpha, is_ascii_alphabetic,
    strictly_ascending, text_eq, text_views, to_ascii_uppercase, trim, trimmed,
};

verus! {

/// Fund and ETF history is requested from this many days before the first
/// missing day, so that a value on or before that day can seed the fill.
pub const FUND_API_PADDING_DAYS: i32 = 7;

// ---------------------------------------------------------------------------
// Purpose and naming
// ---------------------------------------------------------------------------

/// What historical market data is prepared for.
#[derive(Clone, Copy, Debug, PartialEq, Eq, Structural)]
pub enum HistoricalMarketDataPurpose {
    Nav,
    Benchmark,
}

pub open spec fn purpose_prefix(p: HistoricalMarketDataPurpose) -> Seq<char> {
    match p {
        HistoricalMarketDataPurpose::Nav => "NAV"@,
        HistoricalMarketDataPurpose::Benchmark => "benchmark"@,
    }
}

impl HistoricalMarketDataPurpose {
    /// The word that starts error messages about this preparation.
    pub fn error_prefix(&self) -> (r: &'static str)
        ensures
            r@ == purpose_prefix(*self),
    {
        match self {
            HistoricalMarketDataPurpose::Nav => "NAV",
            HistoricalMarketDataPurpose::Benchmark => "benchmark",
        }
    }
}

/// The pair name of a currency against the base currency, e.g. `USDEUR`.
pub fn currency_pair(from: &str) -> (r: String)
    ensures
        r@ == pair_name(from@),
{
    crate::services::exchange_rates::currency_pair(from)
}

// ---------------------------------------------------------------------------
// Currency codes
// ---------------------------------------------------------------------------

/// Three ASCII letters.
pub open spec fn is_currency_code(s: Seq<char>) -> bool {
    s.len() == 3 && forall|k: int| 0 <= k < 3 ==> is_ascii_alpha(#[trigger] s[k])
}

/// A currency as the user wrote it, trimmed and in ASCII upper case.
pub open spec fn normalized_currency(s: Seq<char>) -> Seq<char> {
    ascii_upper_text(trimmed(s))
}

pub open spec fn currency_code_message(s: Seq<char>) -> Seq<char> {
    "currency must be a three-letter alphabetic code: "@ + s
}

/// Trims and upper-cases a currency code; anything but three ASCII letters
/// is rejected with a message that quotes the input.
pub fn normalize_currency(currency: &str) -> (r: Result<String, String>)
    ensures
        match r {
            Ok(code) => is_currency_code(normalized_currency(currency@)) && code@ == normalized_currency(currency@),
            Err(message) => !is_currency_code(normalized_currency(currency@))
                && message@ == currency_code_message(currency@),
        },
{
    let t = trim(currency);
    let normalized = to_ascii_uppercase(t.as_str());
    let v = chars_of(normalized.as_str());
    let mut valid = v.len() == 3;
    if valid {
        let mut k: usize = 0;
        while k < 3
            invariant
                v@ == normalized@,
                v@.len() == 3,
                k <= 3,
                valid == (forall|m: int| 0 <= m < k ==> is_ascii_alpha(#[trigger] v@[m])),
            decreases 3 - k,
        {
            valid = valid && is_ascii_alphabetic(v[k]);
            k = k + 1;
        }
    }
    if !valid {
        let mut message = String::from_str("currency must be a three-letter alphabetic code: ");
        message.append(currency);
        return Err(message);
    }
    Ok(normalized)
}

/// What an exchange-rate history request amounts to once both currencies
/// are normalised: nothing to fetch when they are the same currency.
#[derive(Clone, Debug)]
pub enum ExchangeRateRequest {
    Identity,
    Fetch { from: String, to: String },
}

pub open spec fn exchange_rate_request_is(r: ExchangeRateRequest, from: Seq<char>, to: Seq<char>) -> bool {
    if from == to {
        r is Identity
    } else {
        match r {
            ExchangeRateRequest::Fetch { from: f, to: t } => f@ == from && t@ == to,
            ExchangeRateRequest::Identity => false,
        }
    }
}

/// Normalises both currencies of an exchange-rate history request, the
/// source currency first.
pub fn exchange_rate_request(from: &str, to: &str) -> (r: Result<ExchangeRateRequest, String>)
    ensures
        !is_currency_code(normalized_currency(from@)) ==> r is Err && r->Err_0@ == currency_code_message(from@),
        is_currency_code(normalized_currency(from@)) && !is_currency_code(normalized_currency(to@))
            ==> r is Err && r->Err_0@ == currency_code_message(to@),
        is_currency_code(normalized_currency(from@)) && is_currency_code(normalized_currency(to@))
            ==> r is Ok && exchange_rate_request_is(r->Ok_0, normalized_currency(from@), normalized_currency(to@)),
{
    let from = match normalize_currency(from) {
        Ok(code) => code,
        Err(message) => return Err(message),
    };
    let to = match normalize_currency(to) {
        Ok(code) => code,
        Err(message) => return Err(message),
    };
    if text_eq(from.as_str(), to.as_str()) {
        Ok(ExchangeRateRequest::Identity)
    } else {
        Ok(ExchangeRateRequest::Fetch { from, to })
    }
}

// ---------------------------------------------------------------------------
// Source lookup
// ---------------------------------------------------------------------------

pub open spec fn missing_code_message(asset: Asset) -> Seq<char> {
    "missing Morningstar code for required "@ + asset_type_text(asset.asset_type) + " "@ + asset.ticker@
        + " ("@ + asset.name@ + ")"@
}

/// How an asset is looked up at its price source: stocks by ticker, funds
/// and ETFs by their Morningstar code, which they must have.
pub open spec fn lookup_outcome(asset: Asset) -> Result<Seq<char>, Seq<char>> {
    match asset.asset_type {
        AssetType::Stock => Ok(asset.ticker@),
        AssetType::Fund | AssetType::Etf => match asset.morningstar_code {
            Some(code) => Ok(code@),
            None => Err(missing_code_message(asset)),
        },
    }
}

pub fn lookup_identifier(asset: &Asset) -> (r: Result<&str, String>)
    ensures
        match lookup_outcome(*asset) {
            Ok(id) => r is Ok && r->Ok_0@ == id,
            Err(message) => r is Err && r->Err_0@ == message,
        },
{
    match asset.asset_type {
        AssetType::Stock => Ok(asset.ticker.as_str()),
        AssetType::Fund | AssetType::Etf => match &asset.morningstar_code {
            Some(code) => Ok(code.as_str()),
            None => {
                let mut message = String::from_str("missing Morningstar code for required ");
                let kind = asset.asset_type.to_string();
                message.append(kind.as_str());
                message.append(" ");
                message.append(asset.ticker.as_str());
                message.append(" (");
                message.append(asset.name.as_str());
                message.append(")");
                Err(message)
            },
        },
    }
}

pub open spec fn source_start_outcome(asset_type: AssetType, start: int) -> Option<int> {
    match asset_type {
        AssetType::Stock => Some(start),
        AssetType::Fund | AssetType::Etf => if start - FUND_API_PADDING_DAYS < MIN_DAY {
            None
        } else {
            Some(start - FUND_API_PADDING_DAYS)
        },
    }
}

/// The first day to request from an asset's source for a missing interval
/// that starts on `start_date`: funds and ETFs are padded backwards.
pub fn historical_source_start_date(asset: &Asset, start_date: i32) -> (r: Result<i32, String>)
    requires
        valid_day(start_date as int),
    ensures
        match source_start_outcome(asset.asset_type, start_date as int) {
            Some(day) => r is Ok && r->Ok_0 == day,
            None => r is Err && r->Err_0@ == "historical asset source start date underflow"@,
        },
{
    match asset.asset_type {
        AssetType::Fund | AssetType::Etf => {
            if start_date < MIN_DAY + FUND_API_PADDING_DAYS {
                Err(String::from_str("historical asset source start date underflow"))
            } else {
                Ok(start_date - FUND_API_PADDING_DAYS)
            }
        },
        AssetType::Stock => Ok(start_date),
    }
}

// ---------------------------------------------------------------------------
// Required currencies
// ---------------------------------------------------------------------------

/// Some asset is quoted in currency `c`, which is not the base currency.
pub open spec fn requires_currency(assets: Seq<Asset>, c: Seq<char>) -> bool {
    c != BASE_CURRENCY@ && exists|i: int| 0 <= i < assets.len() && (#[trigger] assets[i]).currency@ == c
}

/// The currencies other than the base currency that the assets are quoted
/// in, each once, in ascending order.
pub fn infer_required_currencies(assets: &[Asset]) -> (r: Vec<String>)
    ensures
        strictly_ascending(text_views(r@)),
        forall|c: Seq<char>| text_views(r@).contains(c) <==> requires_currency(assets@, c),
{
    let mut currencies: Vec<String> = Vec::new();
    let mut i: usize = 0;
    while i < assets.len()
        invariant
            i <= assets@.len(),
            strictly_ascending(text_views(currencies@)),
            forall|c: Seq<char>| text_views(currencies@).contains(c) <==> requires_currency(assets@.take(i as int), c),
        decreases assets@.len() - i,
    {
        let ghost before = text_views(currencies@);
        let currency = &assets[i].currency;
        if !text_eq(currency.as_str(), BASE_CURRENCY) {
            insert_sorted_unique(&mut currencies, copy_text(currency.as_str()));
        }
        proof {
            assert forall|c: Seq<char>| text_views(currencies@).contains(c) <==> requires_currency(assets@.take(i + 1), c) by {
                if requires_currency(assets@.take(i + 1), c) {
                    let k = choose|k: int| 0 <= k < i + 1 && (#[trigger] assets@.take(i + 1)[k]).currency@ == c;
                    if k < i {
                        assert(assets@.take(i as int)[k] == assets@.take(i + 1)[k]);
                    }
                }
                if requires_currency(assets@.take(i as int), c) {
                    let k = choose|k: int| 0 <= k < i && (#[trigger] assets@.take(i as int)[k]).currency@ == c;
                    assert(assets@.take(i + 1)[k] == assets@.take(i as int)[k]);
                }
                if c == assets@[i as int].currency@ && c != BASE_CURRENCY@ {
                    assert(assets@.take(i + 1)[i as int] == assets@[i as int]);
                }
            }
        }
        i = i + 1;
    }
    assert(assets@.take(assets@.len() as int) =~= assets@);
    currencies
}

/// Some asset is quoted in a non-base currency whose pair name is `p`.
pub open spec fn requires_pair(assets: Seq<Asset>, p: Seq<char>) -> bool {
    exists|i: int|
        0 <= i < assets.len() && (#[trigger] assets[i]).currency@ != BASE_CURRENCY@ && p == pair_name(assets[i].currency@)
}

/// The exchange-rate pairs the assets need, each once, in ascending order.
pub fn infer_required_currency_pairs(assets: &[Asset]) -> (r: Vec<String>)
    ensures
        strictly_ascending(text_views(r@)),
        forall|p: Seq<char>| text_views(r@).contains(p) <==> requires_pair(assets@, p),
{
    let mut pairs: Vec<String> = Vec::new();
    let mut i: usize = 0;
    while i < assets.len()
        invariant
            i <= assets@.len(),
            strictly_ascending(text_views(pairs@)),
            forall|p: Seq<char>| text_views(pairs@).contains(p) <==> requires_pair(assets@.take(i as int), p),
        decreases assets@.len() - i,
    {
        let currency = &assets[i].currency;
        if !text_eq(currency.as_str(), BASE_CURRENCY) {
            insert_sorted_unique(&mut pairs, currency_pair(currency.as_str()));
        }
        proof {
            assert forall|p: Seq<char>| text_views(pairs@).contains(p) <==> requires_pair(assets@.take(i + 1), p) by {
                if requires_pair(assets@.take(i + 1), p) {
                    let k = choose|k: int|
                        0 <= k < i + 1 && (#[trigger] assets@.take(i + 1)[k]).currency@ != BASE_CURRENCY@
                            && p == pair_name(assets@.take(i + 1)[k].currency@);
                    if k < i {
                        assert(assets@.take(i as int)[k] == assets@.take(i + 1)[k]);
                    }
                }
                if requires_pair(assets@.take(i as int), p) {
                    let k = choose|k: int|
                        0 <= k < i && (#[trigger] assets@.take(i as int)[k]).currency@ != BASE_CURRENCY@
                            && p == pair_name(assets@.take(i as int)[k].currency@);
                    assert(assets@.take(i + 1)[k] == assets@.take(i as int)[k]);
                }
                if assets@[i as int].currency@ != BASE_CURRENCY@ && p == pair_name(assets@[i as int].currency@) {
                    assert(assets@.take(i + 1)[i as int] == assets@[i as int]);
                }
            }
        }
        i = i + 1;
    }
    assert(assets@.take(assets@.len() as int) =~= assets@);
    pairs
}

// ---------------------------------------------------------------------------
// Dates
// ---------------------------------------------------------------------------

pub open spec fn invalid_date_message(label: Seq<char>, date: Seq<char>) -> Seq<char> {
    "invalid "@ + label + ": "@ + date
}

/// Parses a storage date; `label` names it in the error message.
pub fn parse_market_data_date(date: &str, label: &str) -> (r: Result<i32, String>)
    ensures
        match iso_day(date@) {
            Some(day) => r is Ok && r->Ok_0 == day && valid_day(day),
            None => r is Err && r->Err_0@ == invalid_date_message(label@, date@),
        },
{
    match parse_iso_day(date) {
        Some(day) => Ok(day),
        None => {
            let mut message = String::from_str("invalid ");
            message.append(label);
            message.append(": ");
            message.append(date);
            Err(message)
        },
    }
}

// ---------------------------------------------------------------------------
// Preparation plan
// ---------------------------------------------------------------------------

/// What to fetch before historical market data can be judged: the requested
/// end, the last day the cache may be filled through (never today), the
/// non-base currencies and each asset's source lookup, in asset order.
#[derive(Clone, Debug)]
pub struct HistoricalMarketDataPlan {
    pub requested_end: i32,
    pub cache_end: String,
    pub currencies: Vec<String>,
    pub lookup_identifiers: Vec<String>,
}

/// Index `i` is the first asset whose source lookup fails.
pub open spec fn first_lookup_failure(assets: Seq<Asset>, i: int) -> bool {
    &&& 0 <= i < assets.len()
    &&& lookup_outcome(assets[i]) is Err
    &&& forall|k: int| 0 <= k < i ==> lookup_outcome(#[trigger] assets[k]) is Ok
}

pub open spec fn all_lookups_succeed(assets: Seq<Asset>) -> bool {
    forall|k: int| 0 <= k < assets.len() ==> lookup_outcome(#[trigger] assets[k]) is Ok
}

pub open spec fn min_int(a: int, b: int) -> int {
    if a <= b { a } else { b }
}

/// Plans the preparation of historical market data through `end_date` for
/// the given assets, on a run whose date is `today`.
pub fn plan_historical_market_data(assets: &[Asset], end_date: &str, today: i32) -> (r: Result<HistoricalMarketDataPlan, String>)
    requires
        MIN_DAY < today <= MAX_DAY,
    ensures
        iso_day(end_date@) is None ==> r is Err && r->Err_0@ == invalid_date_message(
            "historical market data end date"@,
            end_date@,
        ),
        iso_day(end_date@) is Some ==> forall|i: int| #[trigger] first_lookup_failure(assets@, i) ==> r is Err
            && r->Err_0@ == lookup_outcome(assets@[i])->Err_0,
        iso_day(end_date@) is Some && all_lookups_succeed(assets@) ==> r is Ok && {
            let plan = r->Ok_0;
            let end = iso_day(end_date@)->Some_0;
            &&& plan.requested_end == end
            &&& plan.cache_end@ == iso_text(min_int(end, today - 1))
            &&& strictly_ascending(text_views(plan.currencies@))
            &&& (forall|c: Seq<char>| text_views(plan.currencies@).contains(c) <==> requires_currency(assets@, c))
            &&& plan.lookup_identifiers@.len() == assets@.len()
            &&& forall|k: int| 0 <= k < assets@.len() ==> (#[trigger] plan.lookup_identifiers@[k])@ == lookup_outcome(assets@[k])->Ok_0
        },
{
    let label = "historical market data end date";
    let requested_end = match parse_market_data_date(end_date, label) {
        Ok(day) => day,
        Err(message) => {
            assert(message@ == invalid_date_message(label@, end_date@));
            return Err(message);
        },
    };
    let yesterday = today - 1;
    let cache_end_day = if requested_end <= yesterday { requested_end } else { yesterday };
    let cache_end = format_iso_day(cache_end_day);
    let currencies = infer_required_currencies(assets);
    let mut lookup_identifiers: Vec<String> = Vec::new();
    let mut i: usize = 0;
    while i < assets.len()
        invariant
            i <= assets@.len(),
            iso_day(end_date@) == Some(requested_end as int),
            lookup_identifiers@.len() == i,
            forall|k: int| 0 <= k < i ==> lookup_outcome(#[trigger] assets@[k]) is Ok,
            forall|k: int| 0 <= k < i ==> (#[trigger] lookup_identifiers@[k])@ == lookup_outcome(assets@[k])->Ok_0,
        decreases assets@.len() - i,
    {
        match lookup_identifier(&assets[i]) {
            Ok(id) => lookup_identifiers.push(copy_text(id)),
            Err(message) => {
                proof {
                    assert forall|j: int| #[trigger] first_lookup_failure(assets@, j) implies j == i by {
                        if j < i {
                            assert(lookup_outcome(assets@[j]) is Ok);
                        } else if j > i {
                            assert(lookup_outcome(assets@[i as int]) is Ok);
                        }
                    }
                }
                return Err(message);
            },
        }
        i = i + 1;
    }
    proof {
        assert forall|j: int| #[trigger] first_lookup_failure(assets@, j) implies false by {
            assert(lookup_outcome(assets@[j]) is Ok);
        }
    }
    Ok(HistoricalMarketDataPlan { requested_end, cache_end, currencies, lookup_identifiers })
}

// ---------------------------------------------------------------------------
// Coverage
// ---------------------------------------------------------------------------

/// The earliest of `floor` and the days present among `days`.
pub open spec fn earliest_day(floor: int, days: Seq<Option<i32>>) -> int
    decreases days.len(),
{
    if days.len() == 0 {
        floor
    } else {
        let m = earliest_day(floor, days.drop_last());
        match days.last() {
            Some(d) => min_int(d as int, m),
            None => m,
        }
    }
}

proof fn lemma_earliest_day(floor: int, days: Seq<Option<i32>>)
    ensures
        earliest_day(floor, days) <= floor,
        forall|k: int| 0 <= k < days.len() && (#[trigger] days[k]) is Some ==> earliest_day(floor, days) <= days[k]->Some_0,
        earliest_day(floor, days) == floor || exists|k: int|
            0 <= k < days.len() && #[trigger] days[k] == Some(earliest_day(floor, days) as i32),
    decreases days.len(),
{
    if days.len() > 0 {
        let init = days.drop_last();
        lemma_earliest_day(floor, init);
        assert forall|k: int| 0 <= k < days.len() && (#[trigger] days[k]) is Some implies earliest_day(floor, days) <= days[k]->Some_0 by {
            if k < days.len() - 1 {
                assert(init[k] == days[k]);
            }
        }
        if earliest_day(floor, days) != floor {
            if earliest_day(floor, days) == earliest_day(floor, init) {
                let k = choose|k: int| 0 <= k < init.len() && #[trigger] init[k] == Some(earliest_day(floor, init) as i32);
                assert(days[k] == init[k]);
            } else {
                assert(days[days.len() - 1] == Some(earliest_day(floor, days) as i32));
            }
        }
    }
}

/// The effective end of prepared market data is limited by the slowest
/// source: it is never after the requested end nor after the latest day of
/// any series that has data, and it is the requested end or one of those
/// days.
pub proof fn lemma_effective_end_is_slowest_source(requested_end: int, latest_asset: Seq<Option<i32>>, latest_rate: Seq<Option<i32>>)
    ensures
        ({
            let e = earliest_day(earliest_day(requested_end, latest_asset), latest_rate);
            &&& e <= requested_end
            &&& forall|k: int| 0 <= k < latest_asset.len() && (#[trigger] latest_asset[k]) is Some ==> e <= latest_asset[k]->Some_0
            &&& forall|k: int| 0 <= k < latest_rate.len() && (#[trigger] latest_rate[k]) is Some ==> e <= latest_rate[k]->Some_0
            &&& (e == requested_end
                || (exists|k: int| 0 <= k < latest_asset.len() && #[trigger] latest_asset[k] == Some(e as i32))
                || (exists|k: int| 0 <= k < latest_rate.len() && #[trigger] latest_rate[k] == Some(e as i32)))
        }),
{
    lemma_earliest_day(requested_end, latest_asset);
    lemma_earliest_day(earliest_day(requested_end, latest_asset), latest_rate);
}

pub open spec fn all_present(days: Seq<Option<i32>>) -> bool {
    forall|k: int| 0 <= k < days.len() ==> (#[trigger] days[k]) is Some
}

/// Index `i` is the first absent entry.
pub open spec fn first_absent(days: Seq<Option<i32>>, i: int) -> bool {
    &&& 0 <= i < days.len()
    &&& days[i] is None
    &&& forall|k: int| 0 <= k < i ==> (#[trigger] days[k]) is Some
}

pub open spec fn dates_valid(days: Seq<Option<i32>>) -> bool {
    forall|k: int| 0 <= k < days.len() && (#[trigger] days[k]) is Some ==> valid_day(days[k]->Some_0 as int)
}

/// An asset whose latest price day is `latest` (absent: no data at all)
/// contributes a limitation.
pub open spec fn asset_coverage_limited(asset: Asset, latest: Option<i32>, end: int) -> bool {
    match latest {
        None => true,
        Some(d) => asset_limitation_class(asset.asset_type, d as int, end) is Some,
    }
}

/// `l` is the limitation an asset with latest price day `latest` contributes.
pub open spec fn asset_coverage_limitation_is(l: MarketDataLimitation, asset: Asset, latest: Option<i32>, end: int) -> bool {
    match latest {
        None => missing_asset_limitation_is(l, asset, end),
        Some(d) => match asset_limitation_class(asset.asset_type, d as int, end) {
            Some(c) => asset_limitation_is(l, asset, d as int, end, c),
            None => false,
        },
    }
}

/// `ls` are, in order, the limitations the assets contribute.
pub open spec fn asset_limitations_are(ls: Seq<MarketDataLimitation>, assets: Seq<Asset>, latest: Seq<Option<i32>>, end: int) -> bool
    decreases assets.len(),
{
    if assets.len() == 0 {
        ls.len() == 0
    } else {
        let n = assets.len() - 1;
        if asset_coverage_limited(assets[n], latest[n], end) {
            &&& ls.len() > 0
            &&& asset_coverage_limitation_is(ls.last(), assets[n], latest[n], end)
            &&& asset_limitations_are(ls.drop_last(), assets.take(n), latest.take(n), end)
        } else {
            asset_limitations_are(ls, assets.take(n), latest.take(n), end)
        }
    }
}

pub open spec fn fx_coverage_limited(latest: Option<i32>, end: int) -> bool {
    match latest {
        None => true,
        Some(d) => fx_limitation_class(d as int, end) is Some,
    }
}

pub open spec fn fx_coverage_limitation_is(l: MarketDataLimitation, currency: Seq<char>, latest: Option<i32>, end: int) -> bool {
    match latest {
        None => missing_fx_limitation_is(l, currency, end),
        Some(d) => match fx_limitation_class(d as int, end) {
            Some(c) => fx_limitation_is(l, currency, d as int, end, c),
            None => false,
        },
    }
}

/// `ls` are, in order, the limitations the assets contribute followed by
/// those the currencies contribute.
pub open spec fn coverage_limitations_are(
    ls: Seq<MarketDataLimitation>,
    assets: Seq<Asset>,
    latest_asset: Seq<Option<i32>>,
    currencies: Seq<Seq<char>>,
    latest_rate: Seq<Option<i32>>,
    end: int,
) -> bool
    decreases currencies.len(),
{
    if currencies.len() == 0 {
        asset_limitations_are(ls, assets, latest_asset, end)
    } else {
        let n = currencies.len() - 1;
        if fx_coverage_limited(latest_rate[n], end) {
            &&& ls.len() > 0
            &&& fx_coverage_limitation_is(ls.last(), currencies[n], latest_rate[n], end)
            &&& coverage_limitations_are(ls.drop_last(), assets, latest_asset, currencies.take(n), latest_rate.take(n), end)
        } else {
            coverage_limitations_are(ls, assets, latest_asset, currencies.take(n), latest_rate.take(n), end)
        }
    }
}

pub open spec fn missing_asset_message(asset: Asset) -> Seq<char> {
    "missing required historical market data for asset "@ + asset.ticker@ + " ("@ + asset.name@ + ")"@
}

pub open spec fn missing_fx_message(currency: Seq<char>) -> Seq<char> {
    "missing required historical market data for FX rate "@ + pair_name(currency)
}

/// Judges the coverage of prepared market data.  `latest_asset_dates[i]` is
/// the last day with a price of asset `i` and `latest_rate_dates[j]` the
/// last day with a rate of currency `j`, absent when there is no data at
/// all.  The effective end is the earliest of the requested end and those
/// days.  In strict mode a series without data is an error; otherwise it is
/// reported as a missing-data limitation and the data is marked unavailable.
pub fn summarize_market_data_coverage(
    assets: &[Asset],
    latest_asset_dates: &[Option<i32>],
    currencies: &[String],
    latest_rate_dates: &[Option<i32>],
    requested_end: i32,
    strict: bool,
) -> (r: Result<ValuationMarketDataAvailability, String>)
    requires
        assets@.len() == latest_asset_dates@.len(),
        currencies@.len() == latest_rate_dates@.len(),
        valid_day(requested_end as int),
        dates_valid(latest_asset_dates@),
        dates_valid(latest_rate_dates@),
    ensures
        r is Err <== strict && !(all_present(latest_asset_dates@) && all_present(latest_rate_dates@)),
        r is Err ==> strict,
        forall|i: int| strict && #[trigger] first_absent(latest_asset_dates@, i) ==> r is Err
            && r->Err_0@ == missing_asset_message(assets@[i]),
        forall|j: int| strict && all_present(latest_asset_dates@) && #[trigger] first_absent(latest_rate_dates@, j)
            ==> r is Err && r->Err_0@ == missing_fx_message(currencies@[j]@),
        r is Ok ==> {
            let a = r->Ok_0;
            &&& a.data_available == (all_present(latest_asset_dates@) && all_present(latest_rate_dates@))
            &&& a.effective_end == earliest_day(earliest_day(requested_end as int, latest_asset_dates@), latest_rate_dates@)
            &&& coverage_limitations_are(
                a.limitations@,
                assets@,
                latest_asset_dates@,
                text_views(currencies@),
                latest_rate_dates@,
                requested_end as int,
            )
        },
{
    let ghost end = requested_end as int;
    let ghost la = latest_asset_dates@;
    let ghost lr = latest_rate_dates@;
    let mut limitations: Vec<MarketDataLimitation> = Vec::new();
    let mut effective_end: i32 = requested_end;
    let mut data_available = true;
    let mut i: usize = 0;
    while i < assets.len()
        invariant
            la == latest_asset_dates@,
            assets@.len() == la.len(),
            end == requested_end as int,
            dates_valid(la),
            valid_day(requested_end as int),
            i <= assets@.len(),
            asset_limitations_are(limitations@, assets@.take(i as int), la.take(i as int), end),
            effective_end as int == earliest_day(end, la.take(i as int)),
            data_available == all_present(la.take(i as int)),
            strict ==> all_present(la.take(i as int)),
        decreases assets@.len() - i,
    {
        let ghost before = limitations@;
        let asset = &assets[i];
        proof {
            assert(assets@.take(i + 1).take(i as int) =~= assets@.take(i as int));
            assert(la.take(i + 1).take(i as int) =~= la.take(i as int));
            assert(la.take(i + 1).drop_last() =~= la.take(i as int));
            assert(assets@.take(i + 1)[i as int] == assets@[i as int]);
            assert(la.take(i + 1)[i as int] == la[i as int]);
        }
        match latest_asset_dates[i] {
            None => {
                if strict {
                    proof {
                        assert forall|j: int| #[trigger] first_absent(la, j) implies j == i by {
                            if j < i {
                                assert(la.take(i as int)[j] == la[j]);
                            } else if j > i {
                                assert(la[i as int] is Some);
                            }
                        }
                    }
                    let mut message = String::from_str("missing required historical market data for asset ");
                    message.append(asset.ticker.as_str());
                    message.append(" (");
                    message.append(asset.name.as_str());
                    message.append(")");
                    return Err(message);
                }
                data_available = false;
                limitations.push(missing_asset_limitation(asset, requested_end));
                proof {
                    assert(limitations@.drop_last() =~= before);
                    assert(!all_present(la.take(i + 1))) by {
                        assert(la.take(i + 1)[i as int] is None);
                    }
                }
            },
            Some(latest) => {
                if latest < effective_end {
                    effective_end = latest;
                }
                match classify_asset_limitation(asset, latest, requested_end) {
                    Some(limitation) => {
                        limitations.push(limitation);
                        proof {
                            assert(limitations@.drop_last() =~= before);
                        }
                    },
                    None => {},
                }
                proof {
                    assert(all_present(la.take(i + 1)) == all_present(la.take(i as int))) by {
                        if all_present(la.take(i as int)) {
                            assert forall|k: int| 0 <= k < i + 1 implies (#[trigger] la.take(i + 1)[k]) is Some by {
                                if k < i {
                                    assert(la.take(i + 1)[k] == la.take(i as int)[k]);
                                }
                            }
                        }
                        if all_present(la.take(i + 1)) {
                            assert forall|k: int| 0 <= k < i implies (#[trigger] la.take(i as int)[k]) is Some by {
                                assert(la.take(i + 1)[k] == la.take(i as int)[k]);
                            }
                        }
                    }
                }
            },
        }
        i = i + 1;
    }
    proof {
        assert(assets@.take(assets@.len() as int) =~= assets@);
        assert(la.take(la.len() as int) =~= la);
    }
    let ghost cv = text_views(currencies@);
    proof {
        assert(cv.take(0) =~= Seq::<Seq<char>>::empty());
    }
    let mut j: usize = 0;
    while j < currencies.len()
        invariant
            la == latest_asset_dates@,
            lr == latest_rate_dates@,
            cv == text_views(currencies@),
            currencies@.len() == lr.len(),
            end == requested_end as int,
            dates_valid(lr),
            valid_day(requested_end as int),
            j <= currencies@.len(),
            coverage_limitations_are(limitations@, assets@, la, cv.take(j as int), lr.take(j as int), end),
            effective_end as int == earliest_day(earliest_day(end, la), lr.take(j as int)),
            data_available == (all_present(la) && all_present(lr.take(j as int))),
            strict ==> all_present(la) && all_present(lr.take(j as int)),
        decreases currencies@.len() - j,
    {
        let ghost before = limitations@;
        let currency = &currencies[j];
        proof {
            assert(cv.take(j + 1).take(j as int) =~= cv.take(j as int));
            assert(lr.take(j + 1).take(j as int) =~= lr.take(j as int));
            assert(lr.take(j + 1).drop_last() =~= lr.take(j as int));
            assert(cv.take(j + 1)[j as int] == currency@);
            assert(lr.take(j + 1)[j as int] == lr[j as int]);
        }
        match latest_rate_dates[j] {
            None => {
                if strict {
                    proof {
                        assert forall|m: int| #[trigger] first_absent(lr, m) implies m == j by {
                            if m < j {
                                assert(lr.take(j as int)[m] == lr[m]);
                            } else if m > j {
                                assert(lr[j as int] is Some);
                            }
                        }
                    }
                    let pair = currency_pair(currency.as_str());
                    let mut message = String::from_str("missing required historical market data for FX rate ");
                    message.append(pair.as_str());
                    return Err(message);
                }
                data_available = false;
                limitations.push(missing_fx_limitation(currency.as_str(), requested_end));
                proof {
                    assert(limitations@.drop_last() =~= before);
                    assert(!all_present(lr.take(j + 1))) by {
                        assert(lr.take(j + 1)[j as int] is None);
                    }
                }
            },
            Some(latest) => {
                if latest < effective_end {
                    effective_end = latest;
                }
                match classify_fx_limitation(currency.as_str(), latest, requested_end) {
                    Some(limitation) => {
                        limitations.push(limitation);
                        proof {
                            assert(limitations@.drop_last() =~= before);
                        }
                    },
                    None => {},
                }
                proof {
                    assert(all_present(lr.take(j + 1)) == all_present(lr.take(j as int))) by {
                        if all_present(lr.take(j as int)) {
                            assert forall|m: int| 0 <= m < j + 1 implies (#[trigger] lr.take(j + 1)[m]) is Some by {
                                if m < j {
                                    assert(lr.take(j + 1)[m] == lr.take(j as int)[m]);
                                }
                            }
                        }
                        if all_present(lr.take(j + 1)) {
                            assert forall|m: int| 0 <= m < j implies (#[trigger] lr.take(j as int)[m]) is Some by {
                                assert(lr.take(j + 1)[m] == lr.take(j as int)[m]);
                            }
                        }
                    }
                }
            },
        }
        j = j + 1;
    }
    proof {
        assert(cv.take(cv.len() as int) =~= cv);
        assert(lr.take(lr.len() as int) =~= lr);
        assert(data_available == (all_present(la) && all_present(lr)));
        assert(effective_end as int == earliest_day(earliest_day(end, la), lr));
    }
    Ok(ValuationMarketDataAvailability { effective_end, limitations, data_available })
}

// ---------------------------------------------------------------------------
// Forward fill
// ---------------------------------------------------------------------------

/// One value reported by a market-data source for a day.  `V` is the value
/// (a price or a rate), which this module only moves around.
#[derive(Clone, Copy, Debug)]
pub struct SourceObservation<V> {
    pub date: i32,
    pub value: V,
}

/// Days strictly ascending: a map from days to values.
pub open spec fn days_ascending<V>(pairs: Seq<(i32, V)>) -> bool {
    forall|a: int, b: int| 0 <= a < b < pairs.len() ==> (#[trigger] pairs[a]).0 < (#[trigger] pairs[b]).0
}

/// The value a map of days holds for day `d`.
pub open spec fn lookup_day<V>(pairs: Seq<(i32, V)>, d: int) -> Option<V> {
    if exists|k: int| 0 <= k < pairs.len() && (#[trigger] pairs[k]).0 == d {
        Some(pairs[choose|k: int| 0 <= k < pairs.len() && (#[trigger] pairs[k]).0 == d].1)
    } else {
        None
    }
}

proof fn lemma_lookup_at<V>(pairs: Seq<(i32, V)>, k: int)
    requires
        days_ascending(pairs),
        0 <= k < pairs.len(),
    ensures
        lookup_day(pairs, pairs[k].0 as int) == Some(pairs[k].1),
{
    let d = pairs[k].0 as int;
    let k2 = choose|m: int| 0 <= m < pairs.len() && (#[trigger] pairs[m]).0 == d;
    assert(0 <= k < pairs.len() && pairs[k].0 == d);
    if k2 < k {
        assert(pairs[k2].0 < pairs[k].0);
    } else if k2 > k {
        assert(pairs[k].0 < pairs[k2].0);
    }
}

/// The value of the latest day before `d`.
pub open spec fn latest_before<V>(pairs: Seq<(i32, V)>, d: int) -> Option<V>
    decreases pairs.len(),
{
    if pairs.len() == 0 {
        None
    } else if pairs.last().0 < d {
        Some(pairs.last().1)
    } else {
        latest_before(pairs.drop_last(), d)
    }
}

/// Some day after `d` has a value.
pub open spec fn has_day_after<V>(pairs: Seq<(i32, V)>, d: int) -> bool {
    exists|k: int| 0 <= k < pairs.len() && (#[trigger] pairs[k]).0 > d
}

pub open spec fn in_window<V>(o: SourceObservation<V>, interval: DateInterval, latest_completed: int) -> bool {
    interval.start <= o.date <= interval.end && o.date <= latest_completed
}

/// The value a source reports for day `d` within the interval and no later
/// than the last completed day; when it reports a day twice, the later
/// report counts.
pub open spec fn source_value<V>(obs: Seq<SourceObservation<V>>, interval: DateInterval, latest_completed: int, d: int) -> Option<V>
    decreases obs.len(),
{
    if obs.len() == 0 {
        None
    } else if in_window(obs.last(), interval, latest_completed) && obs.last().date == d {
        Some(obs.last().value)
    } else {
        source_value(obs.drop_last(), interval, latest_completed, d)
    }
}

/// The last day the source reports within the window.
pub open spec fn source_end<V>(obs: Seq<SourceObservation<V>>, interval: DateInterval, latest_completed: int) -> Option<int>
    decreases obs.len(),
{
    if obs.len() == 0 {
        None
    } else {
        let m = source_end(obs.drop_last(), interval, latest_completed);
        if in_window(obs.last(), interval, latest_completed) {
            match m {
                Some(x) => Some(if obs.last().date > x { obs.last().date as int } else { x }),
                None => Some(obs.last().date as int),
            }
        } else {
            m
        }
    }
}

/// The value forward filling gives day `d` of the interval: the source's
/// value for the latest day on or before `d` that it reports, or, when it
/// reports none, the known value before the interval.
pub open spec fn carried<V>(
    obs: Seq<SourceObservation<V>>,
    interval: DateInterval,
    latest_completed: int,
    known: Seq<(i32, V)>,
    d: int,
) -> Option<V>
    decreases d - interval.start + 1,
{
    if d < interval.start {
        latest_before(known, interval.start as int)
    } else {
        match source_value(obs, interval, latest_completed, d) {
            Some(v) => Some(v),
            None => carried(obs, interval, latest_completed, known, d - 1),
        }
    }
}

/// The last day filled: the interval's end when a later value is already
/// known, else the last day the source reports.
pub open spec fn fill_end<V>(
    obs: Seq<SourceObservation<V>>,
    interval: DateInterval,
    latest_completed: int,
    known: Seq<(i32, V)>,
) -> Option<int> {
    if has_day_after(known, interval.end as int) {
        Some(interval.end as int)
    } else {
        source_end(obs, interval, latest_completed)
    }
}

/// Sets the value of day `d` in an ascending map of days.
fn upsert_day<V>(pairs: &mut Vec<(i32, V)>, d: i32, v: V)
    requires
        days_ascending(old(pairs)@),
    ensures
        days_ascending(final(pairs)@),
        forall|x: int| #[trigger] lookup_day(final(pairs)@, x) == if x == d { Some(v) } else { lookup_day(old(pairs)@, x) },
{
    let ghost before = pairs@;
    let mut j: usize = 0;
    while j < pairs.len() && pairs[j].0 < d
        invariant
            pairs@ == before,
            j <= before.len(),
            forall|k: int| 0 <= k < j ==> (#[trigger] before[k]).0 < d,
        decreases before.len() - j,
    {
        j = j + 1;
    }
    if j < pairs.len() && pairs[j].0 == d {
        pairs.set(j, (d, v));
        proof {
            let after = pairs@;
            assert forall|a: int, b: int| 0 <= a < b < after.len() implies (#[trigger] after[a]).0 < (#[trigger] after[b]).0 by {
                assert(before[a].0 < before[b].0);
            }
            assert forall|x: int| #[trigger] lookup_day(after, x) == if x == d { Some(v) } else { lookup_day(before, x) } by {
                if x == d {
                    lemma_lookup_at(after, j as int);
                } else {
                    if exists|k: int| 0 <= k < before.len() && (#[trigger] before[k]).0 == x {
                        let k = choose|k: int| 0 <= k < before.len() && (#[trigger] before[k]).0 == x;
                        lemma_lookup_at(before, k);
                        assert(after[k] == before[k]);
                        lemma_lookup_at(after, k);
                    } else {
                        assert forall|k: int| 0 <= k < after.len() implies (#[trigger] after[k]).0 != x by {
                            if k != j {
                                assert(after[k] == before[k]);
                            }
                        }
                    }
                }
            }
        }
    } else {
        pairs.insert(j, (d, v));
        proof {
            let after = pairs@;
            assert(after =~= before.take(j as int).push((d, v)) + before.skip(j as int));
            assert forall|k: int| 0 <= k < after.len() implies #[trigger] after[k] == (if k < j { before[k] } else if k == j { (d, v) } else { before[k - 1] }) by {}
            assert forall|a: int, b: int| 0 <= a < b < after.len() implies (#[trigger] after[a]).0 < (#[trigger] after[b]).0 by {
                if b < j {
                    assert(before[a].0 < before[b].0);
                } else if b == j {
                } else if a < j {
                    assert(before[b - 1].0 >= d) by {
                        if j < before.len() {
                            assert(before[j as int].0 >= d);
                            if b - 1 > j {
                                assert(before[j as int].0 < before[b - 1].0);
                            }
                        }
                    }
                } else if a == j {
                    assert(before[j as int].0 > d);
                    if b - 1 > j {
                        assert(before[j as int].0 < before[b - 1].0);
                    }
                } else {
                    assert(before[a - 1].0 < before[b - 1].0);
                }
            }
            assert forall|x: int| #[trigger] lookup_day(after, x) == if x == d { Some(v) } else { lookup_day(before, x) } by {
                if x == d {
                    lemma_lookup_at(after, j as int);
                } else {
                    if exists|k: int| 0 <= k < before.len() && (#[trigger] before[k]).0 == x {
                        let k = choose|k: int| 0 <= k < before.len() && (#[trigger] before[k]).0 == x;
                        lemma_lookup_at(before, k);
                        let k2 = if k < j { k } else { k + 1 };
                        assert(after[k2] == before[k]);
                        lemma_lookup_at(after, k2);
                    } else {
                        assert forall|k: int| 0 <= k < after.len() implies (#[trigger] after[k]).0 != x by {
                            if k < j {
                                assert(after[k] == before[k]);
                            } else if k > j {
                                assert(after[k] == before[k - 1]);
                            }
                        }
                    }
                }
            }
        }
    }
}

fn find_day<V: Copy>(pairs: &Vec<(i32, V)>, d: i32) -> (r: Option<V>)
    requires
        days_ascending(pairs@),
    ensures
        r == lookup_day(pairs@, d as int),
{
    let mut k: usize = 0;
    while k < pairs.len()
        invariant
            k <= pairs@.len(),
            days_ascending(pairs@),
            forall|m: int| 0 <= m < k ==> (#[trigger] pairs@[m]).0 != d,
        decreases pairs@.len() - k,
    {
        if pairs[k].0 == d {
            proof {
                lemma_lookup_at(pairs@, k as int);
            }
            return Some(pairs[k].1);
        }
        k = k + 1;
    }
    None
}

/// The source's values within the interval, up to the last completed day,
/// as an ascending map of days.
pub fn interval_source_values<V: Copy>(
    interval: DateInterval,
    observations: &[SourceObservation<V>],
    latest_completed_date: i32,
) -> (r: Vec<(i32, V)>)
    ensures
        days_ascending(r@),
        forall|d: int| #[trigger] lookup_day(r@, d) == source_value(observations@, interval, latest_completed_date as int, d),
        r@.len() > 0 <==> source_end(observations@, interval, latest_completed_date as int) is Some,
        r@.len() > 0 ==> r@.last().0 == source_end(observations@, interval, latest_completed_date as int)->Some_0,
{
    let ghost lc = latest_completed_date as int;
    let mut values: Vec<(i32, V)> = Vec::new();
    let mut i: usize = 0;
    while i < observations.len()
        invariant
            i <= observations@.len(),
            lc == latest_completed_date as int,
            days_ascending(values@),
            forall|d: int| #[trigger] lookup_day(values@, d) == source_value(observations@.take(i as int), interval, lc, d),
            values@.len() > 0 <==> source_end(observations@.take(i as int), interval, lc) is Some,
            values@.len() > 0 ==> values@.last().0 == source_end(observations@.take(i as int), interval, lc)->Some_0,
        decreases observations@.len() - i,
    {
        let o = observations[i];
        let ghost prefix = observations@.take(i as int);
        let ghost next = observations@.take(i + 1);
        assert(next.drop_last() =~= prefix);
        assert(next.last() == o);
        let ghost old_values = values@;
        if interval.start <= o.date && o.date <= interval.end && o.date <= latest_completed_date {
            upsert_day(&mut values, o.date, o.value);
            proof {
                let e = source_end(next, interval, lc)->Some_0;
                assert(source_end(next, interval, lc) is Some);
                assert(e >= o.date);
                assert(old_values.len() > 0 ==> e >= old_values.last().0);
                assert(lookup_day(values@, o.date as int) is Some);
                lemma_lookup_at_exists(values@, o.date as int);
                assert(values@.len() > 0);
                let n = values@.len() - 1;
                let last = values@[n].0 as int;
                lemma_lookup_at(values@, n);
                if last != o.date {
                    assert(lookup_day(old_values, last) is Some);
                    lemma_lookup_at_exists(old_values, last);
                    let k0 = choose|m: int| 0 <= m < old_values.len() && (#[trigger] old_values[m]).0 == last;
                    if k0 < old_values.len() - 1 {
                        assert(old_values[k0].0 < old_values[old_values.len() - 1].0);
                    }
                    assert(last <= e);
                }
                if e == o.date {
                    lemma_lookup_at_exists(values@, e);
                    let kk = choose|m: int| 0 <= m < values@.len() && (#[trigger] values@[m]).0 == e;
                    if kk < n {
                        assert(values@[kk].0 < values@[n].0);
                    }
                } else {
                    let olast = old_values.last().0 as int;
                    assert(olast == e);
                    lemma_lookup_at(old_values, old_values.len() - 1);
                    assert(lookup_day(values@, e) is Some);
                    lemma_lookup_at_exists(values@, e);
                    let kk = choose|m: int| 0 <= m < values@.len() && (#[trigger] values@[m]).0 == e;
                    if kk < n {
                        assert(values@[kk].0 < values@[n].0);
                    }
                }
                assert(last == e);
            }
        } else {
            assert(source_end(next, interval, lc) == source_end(prefix, interval, lc));
        }
        i = i + 1;
    }
    assert(observations@.take(observations@.len() as int) =~= observations@);
    values
}

proof fn lemma_lookup_at_exists<V>(pairs: Seq<(i32, V)>, d: int)
    requires
        lookup_day(pairs, d) is Some,
    ensures
        exists|k: int| 0 <= k < pairs.len() && (#[trigger] pairs[k]).0 == d,
{
}

fn latest_value_before<V: Copy>(pairs: &Vec<(i32, V)>, d: i32) -> (r: Option<V>)
    ensures
        r == latest_before(pairs@, d as int),
{
    let mut k: usize = pairs.len();
    assert(pairs@.take(k as int) =~= pairs@);
    while k > 0
        invariant
            k <= pairs@.len(),
            latest_before(pairs@, d as int) == latest_before(pairs@.take(k as int), d as int),
        decreases k,
    {
        assert(pairs@.take(k as int).last() == pairs@[k - 1]);
        assert(pairs@.take(k as int).drop_last() =~= pairs@.take(k - 1));
        if pairs[k - 1].0 < d {
            return Some(pairs[k - 1].1);
        }
        k = k - 1;
    }
    None
}

fn any_day_after<V>(pairs: &Vec<(i32, V)>, d: i32) -> (r: bool)
    ensures
        r == has_day_after(pairs@, d as int),
{
    let mut k: usize = 0;
    while k < pairs.len()
        invariant
            k <= pairs@.len(),
            forall|m: int| 0 <= m < k ==> (#[trigger] pairs@[m]).0 <= d,
        decreases pairs@.len() - k,
    {
        if pairs[k].0 > d {
            return true;
        }
        k = k + 1;
    }
    false
}

/// `r` are, in ascending order, the days of `start ..= end` that forward
/// filling gives a value, with that value.
pub open spec fn filled_days_are<V>(
    r: Seq<(i32, V)>,
    obs: Seq<SourceObservation<V>>,
    interval: DateInterval,
    latest_completed: int,
    known: Seq<(i32, V)>,
    end: int,
) -> bool {
    &&& days_ascending(r)
    &&& forall|k: int| 0 <= k < r.len() ==> interval.start <= (#[trigger] r[k]).0 <= end
        && carried(obs, interval, latest_completed, known, r[k].0 as int) == Some(r[k].1)
    &&& forall|d: int| interval.start <= d <= end && (#[trigger] carried(obs, interval, latest_completed, known, d)) is Some
        ==> exists|k: int| 0 <= k < r.len() && (#[trigger] r[k]).0 == d
}

/// Fills the days of a missing interval from a source's observations:
/// each day takes the source's value for the latest reported day on or
/// before it (or the known value before the interval), through the last
/// day the source reports, or through the interval's end when a later
/// value is already known.  The filled days are added to `known` and
/// returned.
pub fn forward_filled_interval<V: Copy>(
    interval: DateInterval,
    observations: &[SourceObservation<V>],
    latest_completed_date: i32,
    known: &mut Vec<(i32, V)>,
) -> (r: Vec<(i32, V)>)
    requires
        days_ascending(old(known)@),
        valid_day(interval.start as int),
        valid_day(interval.end as int),
    ensures
        days_ascending(final(known)@),
        match fill_end(observations@, interval, latest_completed_date as int, old(known)@) {
            None => r@.len() == 0 && final(known)@ == old(known)@,
            Some(e) => {
                &&& filled_days_are(r@, observations@, interval, latest_completed_date as int, old(known)@, e)
                &&& forall|x: int| #[trigger] lookup_day(final(known)@, x) == if interval.start <= x <= e
                    && carried(observations@, interval, latest_completed_date as int, old(known)@, x) is Some {
                    carried(observations@, interval, latest_completed_date as int, old(known)@, x)
                } else {
                    lookup_day(old(known)@, x)
                }
            },
        },
{
    let ghost lc = latest_completed_date as int;
    let ghost k0 = known@;
    let source = interval_source_values(interval, observations, latest_completed_date);
    let has_later = any_day_after(known, interval.end);
    let end: i32 = if has_later {
        interval.end
    } else if source.len() > 0 {
        source[source.len() - 1].0
    } else {
        return Vec::new();
    };
    assert(fill_end(observations@, interval, lc, k0) == Some(end as int));
    proof {
        if !has_later {
            lemma_lookup_at(source@, source@.len() - 1);
            assert(source_value(observations@, interval, lc, end as int) is Some);
            lemma_source_value_in_window(observations@, interval, lc, end as int);
        }
    }
    let mut last_known = latest_value_before(known, interval.start);
    let mut filled: Vec<(i32, V)> = Vec::new();
    let mut current: i32 = interval.start;
    while current <= end
        invariant
            k0 == old(known)@,
            lc == latest_completed_date as int,
            valid_day(interval.start as int),
            end <= interval.end,
            valid_day(interval.end as int),
            interval.start <= current,
            current <= end + 1 || current == interval.start,
            days_ascending(source@),
            forall|d: int| #[trigger] lookup_day(source@, d) == source_value(observations@, interval, lc, d),
            days_ascending(known@),
            days_ascending(filled@),
            last_known == carried(observations@, interval, lc, k0, current - 1),
            forall|k: int| 0 <= k < filled@.len() ==> interval.start <= (#[trigger] filled@[k]).0 < current
                && carried(observations@, interval, lc, k0, filled@[k].0 as int) == Some(filled@[k].1),
            forall|d: int| interval.start <= d < current && (#[trigger] carried(observations@, interval, lc, k0, d)) is Some
                ==> exists|k: int| 0 <= k < filled@.len() && (#[trigger] filled@[k]).0 == d,
            forall|x: int| #[trigger] lookup_day(known@, x) == if interval.start <= x < current
                && carried(observations@, interval, lc, k0, x) is Some {
                carried(observations@, interval, lc, k0, x)
            } else {
                lookup_day(k0, x)
            },
        decreases end + 1 - current,
    {
        let value = match find_day(&source, current) {
            Some(v) => Some(v),
            None => last_known,
        };
        assert(value == carried(observations@, interval, lc, k0, current as int));
        let ghost old_filled = filled@;
        let ghost old_known = known@;
        match value {
            Some(v) => {
                filled.push((current, v));
                upsert_day(known, current, v);
                last_known = Some(v);
                proof {
                    assert forall|a: int, b: int| 0 <= a < b < filled@.len() implies (#[trigger] filled@[a]).0 < (#[trigger] filled@[b]).0 by {
                        if b < old_filled.len() {
                            assert(old_filled[a].0 < old_filled[b].0);
                        } else {
                            assert(filled@[a] == old_filled[a]);
                        }
                    }
                    assert forall|d: int| interval.start <= d < current + 1 && (#[trigger] carried(observations@, interval, lc, k0, d)) is Some
                        implies exists|k: int| 0 <= k < filled@.len() && (#[trigger] filled@[k]).0 == d by {
                        if d < current {
                            let k = choose|k: int| 0 <= k < old_filled.len() && (#[trigger] old_filled[k]).0 == d;
                            assert(filled@[k] == old_filled[k]);
                        } else {
                            assert(filled@[old_filled.len() as int].0 == d);
                        }
                    }
                }
            },
            None => {},
        }
        current = current + 1;
    }
    filled
}

proof fn lemma_source_value_in_window<V>(obs: Seq<SourceObservation<V>>, interval: DateInterval, lc: int, d: int)
    requires
        source_value(obs, interval, lc, d) is Some,
    ensures
        interval.start <= d <= interval.end,
    decreases obs.len(),
{
    if obs.len() > 0 && !(in_window(obs.last(), interval, lc) && obs.last().date == d) {
        lemma_source_value_in_window(obs.drop_last(), interval, lc, d);
    }
}

/// Forward filling invents no values: a filled day carries the value the
/// source reported for a day of the interval no later than it, or the value
/// known before the interval.
pub proof fn lemma_forward_fill_invents_no_value<V>(
    obs: Seq<SourceObservation<V>>,
    interval: DateInterval,
    latest_completed: int,
    known: Seq<(i32, V)>,
    d: int,
)
    requires
        carried(obs, interval, latest_completed, known, d) is Some,
    ensures
        ({
            let v = carried(obs, interval, latest_completed, known, d)->Some_0;
            (exists|e: int| interval.start <= e <= d && #[trigger] source_value(obs, interval, latest_completed, e) == Some(v))
                || latest_before(known, interval.start as int) == Some(v)
        }),
    decreases d - interval.start + 1,
{
    if d >= interval.start {
        match source_value(obs, interval, latest_completed, d) {
            Some(v) => {
                assert(interval.start <= d <= d && source_value(obs, interval, latest_completed, d) == Some(v));
            },
            None => {
                lemma_forward_fill_invents_no_value(obs, interval, latest_completed, known, d - 1);
            },
        }
    }
}

/// The value a source reports for day `d`; when it reports a day twice,
/// the later report counts.
pub open spec fn reported_value<V>(obs: Seq<SourceObservation<V>>, d: int) -> Option<V>
    decreases obs.len(),
{
    if obs.len() == 0 {
        None
    } else if obs.last().date == d {
        Some(obs.last().value)
    } else {
        reported_value(obs.drop_last(), d)
    }
}

pub open spec fn observation_pairs<V>(obs: Seq<SourceObservation<V>>) -> Seq<(i32, V)> {
    obs.map_values(|o: SourceObservation<V>| (o.date, o.value))
}

/// A source's observations by ascending day, one per day (the last report
/// of a day wins).
pub fn sort_and_dedup_observations<V: Copy>(values: &[SourceObservation<V>]) -> (r: Vec<SourceObservation<V>>)
    ensures
        days_ascending(observation_pairs(r@)),
        forall|d: int| #[trigger] lookup_day(observation_pairs(r@), d) == reported_value(values@, d),
{
    let mut by_date: Vec<(i32, V)> = Vec::new();
    let mut i: usize = 0;
    while i < values.len()
        invariant
            i <= values@.len(),
            days_ascending(by_date@),
            forall|d: int| #[trigger] lookup_day(by_date@, d) == reported_value(values@.take(i as int), d),
        decreases values@.len() - i,
    {
        let o = values[i];
        assert(values@.take(i + 1).drop_last() =~= values@.take(i as int));
        assert(values@.take(i + 1).last() == o);
        upsert_day(&mut by_date, o.date, o.value);
        i = i + 1;
    }
    assert(values@.take(values@.len() as int) =~= values@);
    let mut out: Vec<SourceObservation<V>> = Vec::new();
    let mut k: usize = 0;
    while k < by_date.len()
        invariant
            k <= by_date@.len(),
            out@.len() == k,
            observation_pairs(out@) =~= by_date@.take(k as int),
        decreases by_date@.len() - k,
    {
        let pair = by_date[k];
        let ghost old_out = out@;
        out.push(SourceObservation { date: pair.0, value: pair.1 });
        assert forall|j: int| 0 <= j < k + 1 implies #[trigger] observation_pairs(out@)[j] == by_date@[j] by {
            if j < k {
                assert(out@[j] == old_out[j]);
                assert(observation_pairs(old_out)[j] == by_date@.take(k as int)[j]);
            }
        }
        k = k + 1;
        assert(observation_pairs(out@) =~= by_date@.take(k as int));
    }
    assert(by_date@.take(by_date@.len() as int) =~= by_date@);
    out
}

pub open spec fn invalid_observation_message(date: Seq<char>) -> Seq<char> {
    "invalid source observation date: "@ + date
}

/// Reads the dates of a source's `(date, value)` pairs; the first
/// unreadable date is reported.
pub fn parse_observations<V: Copy>(values: &[(String, V)]) -> (r: Result<Vec<SourceObservation<V>>, String>)
    ensures
        r is Ok <==> forall|k: int| 0 <= k < values@.len() ==> iso_day((#[trigger] values@[k]).0@) is Some,
        r is Ok ==> r->Ok_0@.len() == values@.len() && forall|k: int| 0 <= k < values@.len() ==> Some(
            (#[trigger] r->Ok_0@[k]).date as int,
        ) == iso_day(values@[k].0@) && r->Ok_0@[k].value == values@[k].1,
        r is Err ==> exists|k: int| 0 <= k < values@.len() && iso_day((#[trigger] values@[k]).0@) is None
            && r->Err_0@ == invalid_observation_message(values@[k].0@)
            && forall|m: int| 0 <= m < k ==> iso_day((#[trigger] values@[m]).0@) is Some,
{
    let mut out: Vec<SourceObservation<V>> = Vec::new();
    let mut i: usize = 0;
    while i < values.len()
        invariant
            i <= values@.len(),
            out@.len() == i,
            forall|k: int| 0 <= k < i ==> iso_day((#[trigger] values@[k]).0@) is Some,
            forall|k: int| 0 <= k < i ==> Some((#[trigger] out@[k]).date as int) == iso_day(values@[k].0@)
                && out@[k].value == values@[k].1,
        decreases values@.len() - i,
    {
        match parse_iso_day(values[i].0.as_str()) {
            Some(date) => out.push(SourceObservation { date, value: values[i].1 }),
            None => {
                let mut message = String::from_str("invalid source observation date: ");
                message.append(values[i].0.as_str());
                return Err(message);
            },
        }
        i = i + 1;
    }
    Ok(out)
}

// ---------------------------------------------------------------------------
// Valuation inputs
// ---------------------------------------------------------------------------

/// The exchange rate a valuation needs: none for the base currency.
#[derive(Clone, Copy, Debug)]
pub enum FxRate<V> {
    BaseCurrency,
    Rate(V),
}

pub open spec fn latest_on_or_before<V>(series: Option<Seq<(i32, V)>>, day: int) -> Option<V> {
    match series {
        Some(s) => latest_before(s, day + 1),
        None => None,
    }
}

pub open spec fn opt_series<V>(s: Option<&Vec<(i32, V)>>) -> Option<Seq<(i32, V)>> {
    match s {
        Some(v) => Some(v@),
        None => None,
    }
}

pub open spec fn missing_fx_for_asset_message(asset: Asset) -> Seq<char> {
    "missing required historical market data for FX rate for asset "@ + asset.ticker@ + " ("@ + asset.name@ + ")"@
}

fn series_value<V: Copy>(series: Option<&Vec<(i32, V)>>, day: i32) -> (r: Option<V>)
    requires
        day < i32::MAX,
    ensures
        r == latest_on_or_before(opt_series(series), day as int),
{
    match series {
        Some(s) => latest_value_before(s, day + 1),
        None => None,
    }
}

/// The price and exchange rate of an asset on `day`: the latest prepared
/// values on or before it.  `prices` and `rates` are the prepared series of
/// the asset and of its currency (by ascending day), absent when none was
/// prepared.
pub fn valuation_inputs<V: Copy>(
    asset: &Asset,
    prices: Option<&Vec<(i32, V)>>,
    rates: Option<&Vec<(i32, V)>>,
    day: i32,
) -> (r: Result<(V, FxRate<V>), String>)
    requires
        valid_day(day as int),
    ensures
        latest_on_or_before(opt_series(prices), day as int) is None ==> r is Err && r->Err_0@ == missing_asset_message(*asset),
        latest_on_or_before(opt_series(prices), day as int) is Some ==> {
            let price = latest_on_or_before(opt_series(prices), day as int)->Some_0;
            if asset.currency@ == BASE_CURRENCY@ {
                r is Ok && r->Ok_0.0 == price && r->Ok_0.1 is BaseCurrency
            } else {
                match latest_on_or_before(opt_series(rates), day as int) {
                    Some(rate) => r is Ok && r->Ok_0.0 == price && r->Ok_0.1 == FxRate::Rate(rate),
                    None => r is Err && r->Err_0@ == missing_fx_for_asset_message(*asset),
                }
            }
        },
{
    let price = match series_value(prices, day) {
        Some(p) => p,
        None => {
            let mut message = String::from_str("missing required historical market data for asset ");
            message.append(asset.ticker.as_str());
            message.append(" (");
            message.append(asset.name.as_str());
            message.append(")");
            return Err(message);
        },
    };
    if text_eq(asset.currency.as_str(), BASE_CURRENCY) {
        return Ok((price, FxRate::BaseCurrency));
    }
    match series_value(rates, day) {
        Some(rate) => Ok((price, FxRate::Rate(rate))),
        None => {
            let mut message = String::from_str("missing required historical market data for FX rate for asset ");
            message.append(asset.ticker.as_str());
            message.append(" (");
            message.append(asset.name.as_str());
            message.append(")");
            Err(message)
        },
    }
}

/// The limitations of valuing an asset on `day`: a missing price, and for
/// a foreign currency a missing rate, each reported as missing data.
pub fn valuation_limitations<V: Copy>(
    asset: &Asset,
    prices: Option<&Vec<(i32, V)>>,
    rates: Option<&Vec<(i32, V)>>,
    day: i32,
) -> (r: Vec<MarketDataLimitation>)
    requires
        valid_day(day as int),
    ensures
        ({
            let price_missing = latest_on_or_before(opt_series(prices), day as int) is None;
            let rate_missing = asset.currency@ != BASE_CURRENCY@ && latest_on_or_before(opt_series(rates), day as int) is None;
            &&& r@.len() == (if price_missing { 1int } else { 0int }) + (if rate_missing { 1int } else { 0int })
            &&& price_missing ==> missing_asset_limitation_is(r@[0], *asset, day as int)
            &&& rate_missing ==> missing_fx_limitation_is(r@[r@.len() - 1], asset.currency@, day as int)
        }),
{
    let mut limitations: Vec<MarketDataLimitation> = Vec::new();
    if series_value(prices, day).is_none() {
        limitations.push(missing_asset_limitation(asset, day));
    }
    if !text_eq(asset.currency.as_str(), BASE_CURRENCY) && series_value(rates, day).is_none() {
        limitations.push(missing_fx_limitation(asset.currency.as_str(), day));
    }
    limitations
}

} // verus!
