use rstock::models::asset::{Asset, AssetType};
use rstock::models::market_data::{
    add_limitation, extend_unique_limitations, limitation_eq, MarketDataLimitation,
    MarketDataLimitationClassification, MarketDataSubject,
};
use rstock::services::market_data::{
    currency_pair, exchange_rate_request, forward_filled_interval, historical_source_start_date,
    infer_required_currencies, infer_required_currency_pairs, interval_source_values, lookup_identifier,
    normalize_currency, parse_market_data_date, parse_observations, sort_and_dedup_observations, plan_historical_market_data, summarize_market_data_coverage,
    valuation_inputs, valuation_limitations, ExchangeRateRequest, FxRate, HistoricalMarketDataPurpose,
    SourceObservation,
};
use rstock::services::market_data_policy::{
    classify_asset_limitation, classify_fx_limitation, completed_weekdays_between, missing_intervals,
    DateInterval,
};

// 2025-01-02 (Thursday) is day 739253.
const THU: i32 = 739253;

fn asset(id: i32, ticker: &str, asset_type: AssetType, currency: &str, code: Option<&str>) -> Asset {
    Asset {
        id,
        ticker: ticker.to_owned(),
        name: format!("{ticker} Inc"),
        asset_type,
        currency: currency.to_owned(),
        morningstar_code: code.map(str::to_owned),
        asset_class: Some("equity".to_owned()),
        equity_style: None,
        bond_credit: None,
        bond_duration: None,
        management: None,
    }
}

#[test]
fn purposes_prefix_their_errors() {
    assert_eq!(HistoricalMarketDataPurpose::Nav.error_prefix(), "NAV");
    assert_eq!(HistoricalMarketDataPurpose::Benchmark.error_prefix(), "benchmark");
}

#[test]
fn currency_pairs_are_against_the_base_currency() {
    assert_eq!(currency_pair("USD"), "USDEUR");
    assert_eq!(rstock::services::exchange_rates::currency_pair("GBP"), "GBPEUR");
}

#[test]
fn currencies_are_normalised_to_three_letters() {
    assert_eq!(normalize_currency(" usd ").unwrap(), "USD");
    assert_eq!(
        normalize_currency("US").unwrap_err(),
        "currency must be a three-letter alphabetic code: US"
    );
    assert_eq!(
        normalize_currency("U5D").unwrap_err(),
        "currency must be a three-letter alphabetic code: U5D"
    );
}

#[test]
fn exchange_rate_requests_skip_identical_currencies() {
    assert!(matches!(exchange_rate_request("eur", "EUR").unwrap(), ExchangeRateRequest::Identity));
    match exchange_rate_request("usd", " eur").unwrap() {
        ExchangeRateRequest::Fetch { from, to } => {
            assert_eq!(from, "USD");
            assert_eq!(to, "EUR");
        }
        ExchangeRateRequest::Identity => panic!("distinct currencies must be fetched"),
    }
    assert_eq!(
        exchange_rate_request("usd", "euro").unwrap_err(),
        "currency must be a three-letter alphabetic code: euro"
    );
}

#[test]
fn lookups_use_ticker_or_morningstar_code() {
    let stock = asset(1, "MSFT", AssetType::Stock, "USD", None);
    assert_eq!(lookup_identifier(&stock).unwrap(), "MSFT");
    let fund = asset(2, "FUND1", AssetType::Fund, "EUR", Some("F00000YN5R"));
    assert_eq!(lookup_identifier(&fund).unwrap(), "F00000YN5R");
    let uncoded = asset(3, "ETF1", AssetType::Etf, "EUR", None);
    assert_eq!(
        lookup_identifier(&uncoded).unwrap_err(),
        "missing Morningstar code for required etf ETF1 (ETF1 Inc)"
    );
}

#[test]
fn fund_history_requests_are_padded() {
    let fund = asset(2, "FUND1", AssetType::Fund, "EUR", Some("F1"));
    let stock = asset(1, "MSFT", AssetType::Stock, "USD", None);
    assert_eq!(historical_source_start_date(&fund, THU).unwrap(), THU - 7);
    assert_eq!(historical_source_start_date(&stock, THU).unwrap(), THU);
    assert_eq!(
        historical_source_start_date(&fund, -95746129).unwrap_err(),
        "historical asset source start date underflow"
    );
}

#[test]
fn required_currencies_are_sorted_and_distinct() {
    let assets = vec![
        asset(1, "A", AssetType::Stock, "USD", None),
        asset(2, "B", AssetType::Stock, "EUR", None),
        asset(3, "C", AssetType::Stock, "GBP", None),
        asset(4, "D", AssetType::Stock, "USD", None),
    ];
    assert_eq!(infer_required_currencies(&assets), vec!["GBP", "USD"]);
    assert_eq!(infer_required_currency_pairs(&assets), vec!["GBPEUR", "USDEUR"]);
}

#[test]
fn market_data_dates_name_their_label() {
    assert_eq!(parse_market_data_date("2025-01-02", "asset price date").unwrap(), THU);
    assert_eq!(
        parse_market_data_date("2025-13-01", "asset price date").unwrap_err(),
        "invalid asset price date: 2025-13-01"
    );
}

#[test]
fn plans_never_fill_the_cache_through_today() {
    let assets = vec![
        asset(1, "MSFT", AssetType::Stock, "USD", None),
        asset(2, "FUND1", AssetType::Fund, "EUR", Some("F1")),
    ];
    let plan = plan_historical_market_data(&assets, "2025-01-10", THU).unwrap();
    assert_eq!(plan.requested_end, THU + 8);
    assert_eq!(plan.cache_end, "2025-01-01");
    assert_eq!(plan.currencies, vec!["USD"]);
    assert_eq!(plan.lookup_identifiers, vec!["MSFT", "F1"]);
    let early = plan_historical_market_data(&assets, "2024-12-31", THU).unwrap();
    assert_eq!(early.cache_end, "2024-12-31");
    assert_eq!(
        plan_historical_market_data(&assets, "10-01-2025", THU).unwrap_err(),
        "invalid historical market data end date: 10-01-2025"
    );
    let uncoded = vec![asset(3, "ETF1", AssetType::Etf, "EUR", None)];
    assert_eq!(
        plan_historical_market_data(&uncoded, "2025-01-10", THU).unwrap_err(),
        "missing Morningstar code for required etf ETF1 (ETF1 Inc)"
    );
}

#[test]
fn weekdays_between_skip_weekends() {
    // Friday 2025-01-03 to Monday 2025-01-06: only Monday is a completed weekday.
    assert_eq!(completed_weekdays_between(739254, 739257), 1);
    assert_eq!(completed_weekdays_between(THU, THU + 7), 5);
    assert_eq!(completed_weekdays_between(THU, THU), 0);
}

#[test]
fn limitations_classify_stale_and_lagging_data() {
    let stock = asset(1, "MSFT", AssetType::Stock, "USD", None);
    assert!(classify_asset_limitation(&stock, THU, THU + 4).is_none());
    let stale = classify_asset_limitation(&stock, THU, THU + 7).unwrap();
    assert_eq!(stale.classification, MarketDataLimitationClassification::ActionableStaleData);
    assert_eq!(stale.latest_available_date, Some(THU));
    let fund = asset(2, "FUND1", AssetType::Fund, "EUR", Some("F1"));
    assert!(classify_asset_limitation(&fund, THU, THU + 7).is_none());
    let lag = classify_asset_limitation(&fund, THU, THU + 8).unwrap();
    assert_eq!(lag.classification, MarketDataLimitationClassification::ActionableReportingLag);
    let fx = classify_fx_limitation("USD", THU, THU + 10).unwrap();
    match fx.subject {
        MarketDataSubject::FxRate { currency } => assert_eq!(currency, "USD"),
        MarketDataSubject::Asset { .. } => panic!("FX subject expected"),
    }
    assert!(classify_fx_limitation("USD", THU + 10, THU + 10).is_none());
}

#[test]
fn missing_intervals_are_maximal_uncached_runs() {
    let runs = missing_intervals(10, 20, &[12, 13, 17, 20]);
    let pairs: Vec<(i32, i32)> = runs.iter().map(|r| (r.start, r.end)).collect();
    assert_eq!(pairs, vec![(10, 11), (14, 16), (18, 19)]);
    assert!(missing_intervals(5, 4, &[]).is_empty());
    let all = missing_intervals(1, 3, &[]);
    assert_eq!((all[0].start, all[0].end), (1, 3));
}

#[test]
fn coverage_is_limited_by_the_slowest_source() {
    let assets = vec![
        asset(1, "MSFT", AssetType::Stock, "USD", None),
        asset(2, "FUND1", AssetType::Fund, "EUR", Some("F1")),
    ];
    let currencies = vec!["USD".to_owned()];
    let end = THU + 8;
    let summary = summarize_market_data_coverage(
        &assets,
        &[Some(end), Some(THU)],
        &currencies,
        &[Some(end - 1)],
        end,
        true,
    )
    .unwrap();
    assert_eq!(summary.effective_end, THU);
    assert!(summary.data_available);
    assert_eq!(summary.limitations.len(), 1);
    assert_eq!(
        summary.limitations[0].classification,
        MarketDataLimitationClassification::ActionableReportingLag
    );
}

#[test]
fn missing_series_are_errors_when_strict() {
    let assets = vec![asset(1, "MSFT", AssetType::Stock, "USD", None)];
    let currencies = vec!["USD".to_owned()];
    assert_eq!(
        summarize_market_data_coverage(&assets, &[None], &currencies, &[None], THU, true).unwrap_err(),
        "missing required historical market data for asset MSFT (MSFT Inc)"
    );
    assert_eq!(
        summarize_market_data_coverage(&assets, &[Some(THU)], &currencies, &[None], THU, true).unwrap_err(),
        "missing required historical market data for FX rate USDEUR"
    );
    let lenient =
        summarize_market_data_coverage(&assets, &[None], &currencies, &[Some(THU)], THU, false).unwrap();
    assert!(!lenient.data_available);
    assert_eq!(lenient.effective_end, THU);
    assert_eq!(lenient.limitations.len(), 1);
    assert_eq!(
        lenient.limitations[0].classification,
        MarketDataLimitationClassification::ActionableMissingData
    );
    assert_eq!(lenient.limitations[0].latest_available_date, None);
}

fn obs(date: i32, value: f64) -> SourceObservation<f64> {
    SourceObservation { date, value }
}

#[test]
fn source_values_keep_the_last_report_of_a_day() {
    let interval = DateInterval { start: 10, end: 20 };
    let values = interval_source_values(interval, &[obs(15, 1.0), obs(12, 2.0), obs(15, 3.0), obs(25, 9.0), obs(18, 4.0)], 17);
    assert_eq!(values, vec![(12, 2.0), (15, 3.0)]);
}

#[test]
fn forward_fill_carries_the_latest_value() {
    let interval = DateInterval { start: 10, end: 15 };
    let mut known = vec![(8, 1.0), (20, 7.0)];
    let filled = forward_filled_interval(interval, &[obs(12, 2.0), obs(14, 3.0)], 30, &mut known);
    assert_eq!(
        filled,
        vec![(10, 1.0), (11, 1.0), (12, 2.0), (13, 2.0), (14, 3.0), (15, 3.0)]
    );
    assert_eq!(known.len(), 8);
    assert_eq!(known[0], (8, 1.0));
    assert_eq!(known[7], (20, 7.0));
}

#[test]
fn forward_fill_stops_at_the_last_source_day_without_later_data() {
    let interval = DateInterval { start: 10, end: 15 };
    let mut known: Vec<(i32, f64)> = Vec::new();
    let filled = forward_filled_interval(interval, &[obs(11, 2.0), obs(13, 3.0)], 30, &mut known);
    assert_eq!(filled, vec![(11, 2.0), (12, 2.0), (13, 3.0)]);
    assert_eq!(known, filled);
    let mut untouched = vec![(1, 5.0)];
    assert!(forward_filled_interval(interval, &[], 30, &mut untouched).is_empty());
    assert_eq!(untouched, vec![(1, 5.0)]);
}

#[test]
fn observations_are_sorted_with_the_last_report_per_day() {
    let sorted = sort_and_dedup_observations(&[obs(5, 1.0), obs(3, 2.0), obs(5, 3.0)]);
    let pairs: Vec<(i32, f64)> = sorted.iter().map(|o| (o.date, o.value)).collect();
    assert_eq!(pairs, vec![(3, 2.0), (5, 3.0)]);
}

#[test]
fn observation_dates_must_be_readable() {
    let parsed = parse_observations(&[("2025-01-02".to_owned(), 1.5)]).unwrap();
    assert_eq!(parsed[0].date, THU);
    assert_eq!(parsed[0].value, 1.5);
    assert_eq!(
        parse_observations(&[("2025-01-02".to_owned(), 1.5), ("02/01/2025".to_owned(), 2.0)]).unwrap_err(),
        "invalid source observation date: 02/01/2025"
    );
}

#[test]
fn valuations_use_the_latest_values_on_or_before_the_day() {
    let usd = asset(1, "MSFT", AssetType::Stock, "USD", None);
    let prices = vec![(THU - 3, 10.0), (THU, 11.0), (THU + 2, 12.0)];
    let rates = vec![(THU - 10, 0.9)];
    let (price, rate) = valuation_inputs(&usd, Some(&prices), Some(&rates), THU + 1).unwrap();
    assert_eq!(price, 11.0);
    assert!(matches!(rate, FxRate::Rate(r) if r == 0.9));
    assert_eq!(
        valuation_inputs(&usd, Some(&prices), Some(&rates), THU - 5).unwrap_err(),
        "missing required historical market data for asset MSFT (MSFT Inc)"
    );
    assert_eq!(
        valuation_inputs(&usd, Some(&prices), None, THU).unwrap_err(),
        "missing required historical market data for FX rate for asset MSFT (MSFT Inc)"
    );
    let eur = asset(2, "SAN", AssetType::Stock, "EUR", None);
    assert!(matches!(valuation_inputs(&eur, Some(&prices), None, THU).unwrap().1, FxRate::BaseCurrency));
    let limitations = valuation_limitations(&usd, None::<&Vec<(i32, f64)>>, None, THU);
    assert_eq!(limitations.len(), 2);
    assert!(valuation_limitations(&eur, Some(&prices), None, THU).is_empty());
}

fn fx_limitation(currency: &str, latest: Option<i32>) -> MarketDataLimitation {
    MarketDataLimitation {
        subject: MarketDataSubject::FxRate { currency: currency.to_owned() },
        latest_available_date: latest,
        requested_end_date: THU,
        classification: MarketDataLimitationClassification::ActionableStaleData,
    }
}

#[test]
fn limitations_are_listed_once() {
    let mut limitations = vec![fx_limitation("USD", Some(THU - 7))];
    add_limitation(&mut limitations, fx_limitation("USD", Some(THU - 7)));
    assert_eq!(limitations.len(), 1);
    add_limitation(&mut limitations, fx_limitation("USD", Some(THU - 8)));
    assert_eq!(limitations.len(), 2);
    extend_unique_limitations(
        &mut limitations,
        vec![
            fx_limitation("GBP", None),
            fx_limitation("USD", Some(THU - 8)),
            fx_limitation("GBP", None),
            fx_limitation("CHF", None),
        ],
    );
    assert_eq!(limitations.len(), 4);
    assert!(limitation_eq(&limitations[0], &fx_limitation("USD", Some(THU - 7))));
    assert!(limitation_eq(&limitations[1], &fx_limitation("USD", Some(THU - 8))));
    assert!(limitation_eq(&limitations[2], &fx_limitation("GBP", None)));
    assert!(limitation_eq(&limitations[3], &fx_limitation("CHF", None)));
    assert!(!limitation_eq(&limitations[2], &limitations[3]));
}
