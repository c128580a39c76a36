use rstock::services::clock::{Clock, SystemClock};
use rstock::services::metrics::{benchmark_asset, benchmark_asset_info};
use rstock::services::morningstar::{
    extract_jwt, jwt_expiry, parse_date_text, parse_date_value, token_is_current, JsonDateValue,
};
use rstock::services::nav::{
    derive_holding_intervals, nav_fx_requirements, plan_from_checkpoint, plan_from_first_transaction,
    find_calculable_prefix, plan_from_latest_snapshot, window_transition_order, AssetCashFlows, TransitionKey, AssetHolding, CashFlowDate, DayTransition, HoldingTransition,
    NavValuationInterval, RebuildPlan, ValuedAsset,
};
use rstock::calendar::{format_iso_day, MAX_DAY, MIN_DAY};
use rstock::models::asset::Asset;
use rstock::models::market_data::limitation_eq;
use rstock::services::market_data_policy::{missing_asset_limitation, missing_fx_limitation};
use rstock::models::asset::AssetType;
use rstock::services::portfolio::{ledger_prepare_scope, LedgerHolding, LedgerPreparationScope};
use rstock::services::analytics::{series_prices, AssetSeries};
use rstock::settings::{settings_variable_names, Settings};

const TOKEN: &str = "eyJhbGciOiJIUzI1NiJ9.eyJleHAiOjE3MDAwMDAwMDB9.c2ln";

#[test]
fn jwt_is_found_between_quotes() {
    let page = format!("<script>var a = 'eyJnot.a'; window.token = \"{TOKEN}\";</script>");
    assert_eq!(extract_jwt(&page).as_deref(), Some(TOKEN));
    assert_eq!(extract_jwt("no token here"), None);
    assert_eq!(extract_jwt(TOKEN).as_deref(), Some(TOKEN));
}

#[test]
fn jwt_expiry_is_read_from_the_payload() {
    assert_eq!(jwt_expiry(TOKEN), Some(1_700_000_000));
    assert_eq!(jwt_expiry("no-dots"), None);
    assert_eq!(jwt_expiry("a.!!!.b"), None);
    assert!(token_is_current(TOKEN, 1_699_999_000));
    assert!(!token_is_current(TOKEN, 1_699_999_950));
}

#[test]
fn the_system_clock_gives_a_representable_day() {
    let today = SystemClock.today();
    // Any day after 2020-01-01 (day 737425) and representable by chrono.
    assert!(today > 737425);
    assert!(today <= 95745399);
}

#[test]
fn the_benchmark_is_an_unclassified_stock() {
    let info = benchmark_asset_info();
    assert_eq!(info.ticker, "^GSPC");
    assert_eq!(info.asset_type, AssetType::Stock);
    let asset = benchmark_asset(9);
    assert_eq!(asset.id, 9);
    assert_eq!(asset.currency, "USD");
    assert!(asset.asset_class.is_none());
}

#[test]
fn settings_come_from_all_variables() {
    let names = settings_variable_names();
    let values: Vec<Option<String>> = names.iter().map(|n| Some(format!("value of {n}"))).collect();
    let settings = Settings::from_env(&values).unwrap();
    assert_eq!(settings.token_page_url, "value of RSTOCK_SOURCE_TOKEN_PAGE_URL");
    assert_eq!(settings.token_cache_path, "value of RSTOCK_SOURCE_TOKEN_CACHE_PATH");
    let mut missing = values.clone();
    missing[4] = None;
    missing[6] = None;
    assert_eq!(
        Settings::from_env(&missing).unwrap_err(),
        "missing required environment variable RSTOCK_SOURCE_SAL_API_KEY"
    );
}

fn transition(date: &str, open_before: bool, open_after: bool) -> HoldingTransition {
    HoldingTransition {
        date: date.to_owned(),
        open_before,
        open_after,
    }
}

#[test]
fn holding_intervals_follow_open_positions() {
    // 2025-01-01 is day 739252.
    let start = 739252;
    let end = start + 30;
    let holdings = vec![
        AssetHolding {
            asset_id: 2,
            counts_for_performance: true,
            open_at_start: false,
            transitions: vec![
                transition("2025-01-05", false, true),
                transition("2025-01-10", true, false),
                transition("2025-01-20", false, true),
            ],
        },
        AssetHolding {
            asset_id: 1,
            counts_for_performance: true,
            open_at_start: true,
            transitions: vec![transition("2024-12-01", false, true)],
        },
        AssetHolding {
            asset_id: 3,
            counts_for_performance: false,
            open_at_start: true,
            transitions: vec![transition("garbage", false, true)],
        },
    ];
    let intervals = derive_holding_intervals(start, end, &holdings).unwrap();
    let triples: Vec<(i32, i32, i32)> = intervals.iter().map(|i| (i.asset_id, i.start, i.end)).collect();
    assert_eq!(
        triples,
        vec![(1, start, end), (2, start + 4, start + 8), (2, start + 19, end)]
    );
    let mut broken = holdings.clone();
    broken[2].counts_for_performance = true;
    assert_eq!(derive_holding_intervals(start, end, &broken).unwrap_err(), "invalid transaction date");
}

#[test]
fn rebuild_resumes_after_the_latest_snapshot() {
    // 2025-01-10 is day 739261.
    let today = 739261;
    assert_eq!(plan_from_checkpoint("2025-01-09", today), Ok(RebuildPlan::UpToDate));
    assert_eq!(plan_from_checkpoint("2025-01-10", today), Ok(RebuildPlan::UpToDate));
    assert_eq!(
        plan_from_checkpoint("2025-01-05", today),
        Ok(RebuildPlan::Rebuild { start: today - 4, end: today - 1 })
    );
    assert_eq!(
        plan_from_checkpoint("01-05-2025", today).unwrap_err(),
        "invalid latest snapshot date"
    );
}

#[test]
fn rebuild_from_scratch_starts_at_the_first_transaction() {
    let today = 739261;
    assert_eq!(plan_from_first_transaction(None, today), Ok(RebuildPlan::NoHistory));
    assert_eq!(plan_from_first_transaction(Some("2025-01-10"), today), Ok(RebuildPlan::NoHistory));
    assert_eq!(
        plan_from_first_transaction(Some("2025-01-01"), today),
        Ok(RebuildPlan::Rebuild { start: 739252, end: today - 1 })
    );
    assert_eq!(
        plan_from_first_transaction(Some("yesterday"), today).unwrap_err(),
        "invalid first transaction date"
    );
}

fn flow(date: &str, is_split: bool) -> CashFlowDate {
    CashFlowDate { date: date.to_owned(), is_split }
}

fn cash_flows(asset_id: i32, currency: &str, counts: bool, transitions: Vec<CashFlowDate>) -> AssetCashFlows {
    AssetCashFlows {
        asset_id,
        currency: currency.to_owned(),
        counts_for_performance: counts,
        transitions,
    }
}

#[test]
fn fx_requirements_cover_valued_and_trading_assets() {
    // 2025-01-01 is day 739252.
    let start = 739252;
    let end = start + 30;
    let assets = vec![
        cash_flows(1, "USD", true, vec![flow("2024-12-01", false)]),
        cash_flows(2, "GBP", true, vec![flow("2025-01-07", false)]),
        cash_flows(3, "EUR", true, vec![flow("2025-01-03", false)]),
        cash_flows(4, "CHF", true, vec![flow("2025-01-04", true)]),
        cash_flows(5, "JPY", false, vec![flow("2025-01-02", false)]),
        cash_flows(6, "USD", true, vec![]),
    ];
    let intervals = vec![NavValuationInterval { asset_id: 1, start: start + 5, end }];
    let req = nav_fx_requirements(start, end, &assets, &intervals).unwrap();
    assert_eq!(req.currencies, vec!["GBP".to_owned(), "USD".to_owned()]);
    // The earliest counted transition on or after the start is 2025-01-03.
    assert_eq!(req.start, Some(start + 2));

    let none = nav_fx_requirements(start, end, &[], &[]).unwrap();
    assert!(none.currencies.is_empty());
    assert_eq!(none.start, None);

    let mut broken = assets.clone();
    broken[1].transitions.push(flow("2025-13-01", false));
    assert_eq!(
        nav_fx_requirements(start, end, &broken, &intervals).unwrap_err(),
        "invalid transaction date"
    );
    // An unreadable date of an asset that does not count is never read.
    let mut ignored = assets.clone();
    ignored[4].transitions.push(flow("garbage", false));
    assert!(nav_fx_requirements(start, end, &ignored, &intervals).is_ok());
}

fn plain_asset(id: i32, currency: &str, asset_class: Option<&str>) -> Asset {
    Asset {
        id,
        ticker: format!("T{id}"),
        name: format!("Asset {id}"),
        asset_type: AssetType::Stock,
        currency: currency.to_owned(),
        morningstar_code: None,
        asset_class: asset_class.map(str::to_owned),
        equity_style: None,
        bond_credit: None,
        bond_duration: None,
        management: None,
    }
}

fn day_transition(date: &str, open_after: bool, missing_conversion: bool) -> DayTransition {
    DayTransition { date: date.to_owned(), open_after, missing_conversion }
}

#[test]
fn calculable_prefix_stops_before_the_first_blocked_day() {
    // 2025-01-01 is day 739252.
    let start = 739252;
    let end = start + 9;
    let held = ValuedAsset {
        asset: plain_asset(1, "EUR", None),
        open_at_start: true,
        transitions: vec![day_transition("2025-01-04", false, false)],
        // The price of the first day carries over to the later days.
        price_days: vec![start],
        fx_days: vec![],
    };
    let bought = ValuedAsset {
        asset: plain_asset(2, "USD", None),
        open_at_start: false,
        transitions: vec![day_transition("2025-01-03", true, false)],
        price_days: vec![start],
        // The first rate is stored for 2025-01-08.
        fx_days: vec![start + 7],
    };
    let cash = ValuedAsset {
        asset: plain_asset(3, "USD", Some("Monetary")),
        open_at_start: true,
        transitions: vec![day_transition("2025-01-02", true, true)],
        price_days: vec![],
        fx_days: vec![],
    };
    let assets = vec![held.clone(), bought.clone(), cash.clone()];
    let (last, limitations) = find_calculable_prefix(start, end, &assets);
    assert_eq!(last, start + 1);
    // Five blocked days report the same missing rate: it is listed once.
    assert_eq!(limitations.len(), 1);
    assert!(limitation_eq(&limitations[0], &missing_fx_limitation("USD", end)));

    // A trade without its base-currency amount blocks its own day, even
    // when a rate is there to report nothing missing.
    let mut unconverted = bought.clone();
    unconverted.transitions[0].missing_conversion = true;
    unconverted.fx_days = vec![start];
    let (last, limitations) = find_calculable_prefix(start, end, &[held.clone(), unconverted.clone()]);
    assert_eq!(last, start + 1);
    assert!(limitations.is_empty());
    unconverted.fx_days.clear();
    let (last, limitations) = find_calculable_prefix(start, end, &[held.clone(), unconverted]);
    assert_eq!(last, start + 1);
    assert_eq!(limitations.len(), 1);
    assert!(limitation_eq(&limitations[0], &missing_fx_limitation("USD", end)));

    // A blocked first day leaves nothing calculable; the later days still
    // report.
    let mut unpriced = held.clone();
    unpriced.price_days.clear();
    let (last, limitations) = find_calculable_prefix(start, end, &[unpriced, bought.clone()]);
    assert_eq!(last, start - 1);
    assert_eq!(limitations.len(), 2);
    assert!(limitation_eq(&limitations[0], &missing_asset_limitation(&plain_asset(1, "EUR", None), end)));
    assert!(limitation_eq(&limitations[1], &missing_fx_limitation("USD", end)));

    // Nothing blocked reaches the end and reports nothing.
    let (last, limitations) = find_calculable_prefix(start, end, &[cash]);
    assert_eq!(last, end);
    assert!(limitations.is_empty());
    let (last, limitations) = find_calculable_prefix(end, start, &assets);
    assert_eq!(last, start);
    assert!(limitations.is_empty());
}

#[test]
fn fund_data_dates_are_read_in_three_ways() {
    // 2020-01-15 is day 737439; midnight UTC of that day is 1579046400000 ms.
    assert_eq!(parse_date_text("2020-01-15"), Some(737439));
    assert_eq!(parse_date_text("2020-01-15T10:30:00"), Some(737439));
    assert_eq!(parse_date_text("1579046400000"), Some(737439));
    assert_eq!(parse_date_text("1579046399999"), Some(737438));
    assert_eq!(parse_date_text("+1579046400000"), Some(737439));
    assert_eq!(parse_date_text("-1"), Some(719162));
    // Byte ten falls inside a two-byte character: no prefix to read.
    assert_eq!(parse_date_text("2020-01-1\u{e9}x"), None);
    assert_eq!(parse_date_text("garbage"), None);
    assert_eq!(parse_date_text(""), None);

    assert_eq!(parse_date_value(&JsonDateValue::Text("2020-01-15".to_owned())), Some(737439));
    assert_eq!(parse_date_value(&JsonDateValue::Number(Some(1579046400000))), Some(737439));
    assert_eq!(parse_date_value(&JsonDateValue::Number(Some(0))), Some(719163));
    assert_eq!(parse_date_value(&JsonDateValue::Number(Some(i64::MAX))), None);
    assert_eq!(parse_date_value(&JsonDateValue::Number(None)), None);
    assert_eq!(parse_date_value(&JsonDateValue::Other), None);
}

#[test]
fn timestamps_reach_exactly_the_representable_days() {
    let millis = |day: i32| (day as i64 - 719163) * 86_400_000;
    assert_eq!(parse_date_value(&JsonDateValue::Number(Some(millis(MIN_DAY)))), Some(MIN_DAY));
    assert_eq!(parse_date_value(&JsonDateValue::Number(Some(millis(MIN_DAY) - 1))), None);
    assert_eq!(parse_date_value(&JsonDateValue::Number(Some(millis(MAX_DAY + 1) - 1))), Some(MAX_DAY));
    assert_eq!(parse_date_value(&JsonDateValue::Number(Some(millis(MAX_DAY + 1)))), None);
}

#[test]
fn a_snapshot_on_the_last_representable_day_has_no_next_day() {
    let today = 739261;
    assert_eq!(plan_from_latest_snapshot(&format_iso_day(MAX_DAY), today), None);
    assert_eq!(
        plan_from_latest_snapshot("2025-01-05", today),
        Some(Ok(RebuildPlan::Rebuild { start: today - 4, end: today - 1 }))
    );
    assert_eq!(plan_from_latest_snapshot("2025-01-09", today), Some(Ok(RebuildPlan::UpToDate)));
    assert_eq!(
        plan_from_latest_snapshot("01-05-2025", today),
        Some(Err("invalid latest snapshot date".to_owned()))
    );
}

fn ledger_holding(asset: Asset, open: bool, dates: &[&str]) -> LedgerHolding {
    LedgerHolding {
        asset,
        open,
        transaction_dates: dates.iter().map(|d| d.to_string()).collect(),
        first_transition_date: dates.first().map(|d| d.to_string()),
    }
}

#[test]
fn positions_prepare_the_open_holdings_in_scope() {
    let mut benchmark = plain_asset(9, "USD", None);
    benchmark.ticker = "^GSPC".to_owned();
    let holdings = vec![
        ledger_holding(plain_asset(1, "USD", None), true, &["2024-03-01", "2024-05-01"]),
        ledger_holding(plain_asset(2, "EUR", None), false, &["2023-01-01"]),
        ledger_holding(plain_asset(3, "EUR", Some("monetary")), true, &["2024-06-01"]),
        ledger_holding(benchmark, true, &["2020-01-01"]),
        ledger_holding(plain_asset(4, "USD", None), true, &[]),
        ledger_holding(plain_asset(5, "USD", None), true, &["2024-02-01", "2025-02-01"]),
    ];
    let all = ledger_prepare_scope(&holdings, "2025-01-31", LedgerPreparationScope::AllOpenHoldings)
        .unwrap()
        .unwrap();
    assert_eq!(all.asset_indices, vec![0, 2, 5]);
    assert_eq!(all.start_date, "2024-02-01");

    // Reusing stored performance data: only monetary assets and assets
    // traded after the end date.
    let reuse = ledger_prepare_scope(&holdings, "2025-01-31", LedgerPreparationScope::ReuseNavPerformanceData)
        .unwrap()
        .unwrap();
    assert_eq!(reuse.asset_indices, vec![2, 5]);
    assert_eq!(reuse.start_date, "2024-02-01");

    // The start never passes the end date.
    let late = vec![ledger_holding(plain_asset(1, "USD", None), true, &["2025-03-01"])];
    let scope = ledger_prepare_scope(&late, "2025-01-31", LedgerPreparationScope::AllOpenHoldings).unwrap().unwrap();
    assert_eq!(scope.start_date, "2025-01-31");

    // Nothing open: nothing to prepare; an unreadable start is an error.
    assert!(ledger_prepare_scope(&holdings[1..2], "2025-01-31", LedgerPreparationScope::AllOpenHoldings)
        .unwrap()
        .is_none());
    let broken = vec![ledger_holding(plain_asset(1, "USD", None), true, &["31-01-2025"])];
    let chrono_message = chrono::NaiveDate::parse_from_str("31-01-2025", "%Y-%m-%d").unwrap_err().to_string();
    assert_eq!(
        ledger_prepare_scope(&broken, "2025-01-31", LedgerPreparationScope::AllOpenHoldings).unwrap_err(),
        chrono_message
    );
}

fn key(date: &str, id: i32) -> TransitionKey {
    TransitionKey { date: date.to_owned(), id }
}

#[test]
fn rebuild_transitions_are_windowed_and_ordered_by_date_then_id() {
    let keys = vec![
        key("2025-01-05", 7),
        key("2024-12-31", 1),
        key("2025-01-02", 9),
        key("2025-01-02", 3),
        key("2025-01-11", 2),
        key("2025-01-05", 7),
        key("2025-01-10", 4),
    ];
    assert_eq!(window_transition_order(&keys, "2025-01-01", "2025-01-10"), vec![3, 2, 0, 5, 6]);
    assert!(window_transition_order(&keys, "2025-02-01", "2025-02-28").is_empty());
    assert!(window_transition_order(&[], "2025-01-01", "2025-01-10").is_empty());
}

#[test]
fn series_are_found_by_asset() {
    let series = vec![
        AssetSeries { asset_id: 1, prices: vec![1.0, 2.0] },
        AssetSeries { asset_id: 2, prices: vec![3.0] },
        AssetSeries { asset_id: 1, prices: vec![9.0] },
    ];
    assert_eq!(series_prices(&series, 1).unwrap(), &vec![1.0, 2.0]);
    assert_eq!(series_prices(&series, 2).unwrap(), &vec![3.0]);
    assert_eq!(series_prices(&series, -5).unwrap_err(), "missing correlation market data for asset -5");
}

#[test]
fn date_ordered_transitions_give_disjoint_intervals() {
    // 2025-01-01 is day 739252.
    let start = 739252;
    let end = start + 30;
    let holding = AssetHolding {
        asset_id: 4,
        counts_for_performance: true,
        open_at_start: true,
        transitions: vec![
            transition("2025-01-03", true, false),
            transition("2025-01-03", false, true),
            transition("2025-01-09", true, false),
            transition("2025-01-15", false, true),
            transition("2025-01-20", true, false),
            transition("2025-01-20", false, true),
        ],
    };
    let intervals = derive_holding_intervals(start, end, &[holding]).unwrap();
    let runs: Vec<(i32, i32)> = intervals.iter().map(|i| (i.start, i.end)).collect();
    assert_eq!(runs, vec![(start, start + 1), (start + 2, start + 7), (start + 14, start + 18), (start + 19, end)]);
    for pair in runs.windows(2) {
        assert!(pair[0].1 < pair[1].0);
    }
}
