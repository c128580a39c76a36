use rstock::models::asset::AssetType;
use rstock::services::composition::{
    asset_class_label, holding_key, route_position, MarketCapCategory, PositionRoute,
};
use rstock::services::fund_analysis::{
    change_type_rank, coverage_reason, decide_snapshot, fund_currency, fund_name, is_equity_holding,
    snapshot_key_date, DiffSource, HoldingChangeType, StoredSnapshot,
};
use rstock::services::fund_comparison::{
    check_distinct_funds, common_holding_matches, coverage_reason as comparison_coverage_reason,
    is_cash_holding, normalize_name, period_start, price_date_bounds, HoldingIdentity,
};

// 2025-01-02 is day 739253.
const THU: i32 = 739253;

fn dates(values: &[&str]) -> Vec<String> {
    values.iter().map(|d| d.to_string()).collect()
}

#[test]
fn fund_descriptions_prefer_local_and_quote_data() {
    assert_eq!(fund_name(Some("Local".to_owned()), Some("Quoted".to_owned())).as_deref(), Some("Local"));
    assert_eq!(fund_name(None, Some("Quoted".to_owned())).as_deref(), Some("Quoted"));
    assert_eq!(fund_currency(None, Some("USD".to_owned())).as_deref(), Some("USD"));
    assert_eq!(fund_currency(Some("EUR".to_owned()), Some("USD".to_owned())).as_deref(), Some("EUR"));
}

#[test]
fn equity_holdings_have_a_ticker() {
    assert!(is_equity_holding(Some("AAPL")));
    assert!(!is_equity_holding(Some("  ")));
    assert!(!is_equity_holding(None));
}

#[test]
fn holding_changes_are_ranked() {
    assert_eq!(change_type_rank(HoldingChangeType::Added), 0);
    assert_eq!(change_type_rank(HoldingChangeType::Removed), 1);
    assert_eq!(change_type_rank(HoldingChangeType::WeightChanged), 2);
}

#[test]
fn analysis_coverage_uses_the_first_and_last_prices() {
    let prices = dates(&["2024-12-30", "2025-01-10"]);
    assert_eq!(coverage_reason(&prices, THU - 10, THU + 8, "fund"), None);
    assert_eq!(
        coverage_reason(&prices, THU - 20, THU + 8, "fund").as_deref(),
        Some("fund lacks start coverage")
    );
    assert_eq!(
        coverage_reason(&prices, THU - 10, THU + 20, "fund").as_deref(),
        Some("fund lacks recent coverage")
    );
    assert_eq!(
        coverage_reason(&[], THU, THU, "fund").as_deref(),
        Some("fund history unavailable")
    );
}

#[test]
fn snapshots_are_keyed_by_portfolio_date() {
    assert_eq!(snapshot_key_date(Some(" 2025-01-01 "), "2025-01-02"), "2025-01-01");
    assert_eq!(snapshot_key_date(Some(""), "2025-01-02"), "2025-01-02");
    assert_eq!(snapshot_key_date(None, "2025-01-02"), "2025-01-02");
}

fn stored(date: &str, fingerprint: &str) -> StoredSnapshot {
    StoredSnapshot {
        snapshot_date: date.to_owned(),
        fingerprint: fingerprint.to_owned(),
    }
}

#[test]
fn snapshot_decisions() {
    let same = decide_snapshot("fp", "2025-01-01", Some(stored("2025-01-01", "fp")), None);
    assert!(!same.holdings_changed && !same.insert && same.diff_against == DiffSource::Nothing);
    let redone = decide_snapshot("new", "2025-01-01", Some(stored("2025-01-01", "old")), None);
    assert!(redone.holdings_changed && !redone.insert && redone.diff_against == DiffSource::SameDate);
    let newer = decide_snapshot("fp", "2025-02-01", None, Some(stored("2025-01-01", "fp")));
    assert!(newer.holdings_changed && newer.insert && newer.diff_against == DiffSource::Nothing);
    assert_eq!(newer.last_snapshot_date.as_deref(), Some("2025-01-01"));
    let changed = decide_snapshot("new", "2025-02-01", None, Some(stored("2025-01-01", "old")));
    assert!(changed.diff_against == DiffSource::Latest);
    let first = decide_snapshot("fp", "2025-02-01", None, None);
    assert!(first.holdings_changed && first.insert && first.last_snapshot_date.is_none());
}

#[test]
fn funds_cannot_be_compared_with_themselves() {
    assert_eq!(
        check_distinct_funds(" f00000yn5r", "F00000YN5R ").unwrap_err(),
        "cannot compare a fund with itself; provide two different fund codes"
    );
    assert!(check_distinct_funds("F1", "F2").is_ok());
    assert_eq!(period_start(THU, 365), THU - 365);
}

#[test]
fn holding_names_are_normalised() {
    assert_eq!(normalize_name("  Cash   AND\tEquivalents "), "cash and equivalents");
    assert!(is_cash_holding(" CASH ", None));
    assert!(is_cash_holding("US Dollar", Some(" Cash ")));
    assert!(!is_cash_holding("Cash Management Fund", Some("CMF")));
}

#[test]
fn price_histories_are_bounded_by_readable_dates() {
    let prices = dates(&["2025-01-05", "bad", "2025-01-01", "2025-01-09"]);
    assert_eq!(price_date_bounds(&prices), Some((THU - 1, THU + 7)));
    assert_eq!(price_date_bounds(&dates(&["bad"])), None);
    assert_eq!(
        comparison_coverage_reason(&dates(&["bad"]), THU, THU, "first fund").as_deref(),
        Some("first fund has no price history")
    );
    assert_eq!(
        comparison_coverage_reason(&prices, THU - 30, THU + 7, "second fund").as_deref(),
        Some("second fund lacks selected-period start coverage")
    );
    assert_eq!(
        comparison_coverage_reason(&prices, THU, THU + 30, "second fund").as_deref(),
        Some("second fund lacks current price coverage")
    );
    assert_eq!(comparison_coverage_reason(&prices, THU, THU + 7, "second fund"), None);
}

#[test]
fn positions_are_routed_for_composition() {
    assert!(matches!(
        route_position(AssetType::Stock, None, None, "Microsoft", "MSFT"),
        PositionRoute::DirectStock
    ));
    match route_position(AssetType::Fund, Some("Equity"), Some("F1"), "Fund", "FND") {
        PositionRoute::EquityFund { code } => assert_eq!(code, "F1"),
        _ => panic!("equity fund expected"),
    }
    match route_position(AssetType::Etf, Some("equity"), None, "World", "WLD") {
        PositionRoute::MissingCode { warning } => {
            assert_eq!(warning, "No morningstar_code set for World (WLD); cannot fetch holdings")
        }
        _ => panic!("missing code expected"),
    }
    assert!(matches!(
        route_position(AssetType::Fund, Some("fixed-income"), Some("F2"), "Bonds", "BND"),
        PositionRoute::NotLookedThrough
    ));
}

#[test]
fn composition_labels() {
    assert_eq!(holding_key(Some("AAPL"), "Apple"), "AAPL");
    assert_eq!(holding_key(Some(""), "Apple"), "Apple");
    assert_eq!(holding_key(None, "Apple"), "Apple");
    assert_eq!(asset_class_label(None), "Unclassified");
    assert_eq!(asset_class_label(Some("equity")), "equity");
    assert_eq!(MarketCapCategory::Large.to_string(), "Large Cap");
    assert_eq!(MarketCapCategory::Mid.to_string(), "Mid Cap");
    assert_eq!(MarketCapCategory::Small.to_string(), "Small Cap");
}

fn identity(name: &str, ticker: Option<&str>) -> HoldingIdentity {
    HoldingIdentity { name: name.to_owned(), ticker: ticker.map(str::to_owned) }
}

#[test]
fn common_holdings_match_by_ticker_then_by_name() {
    let a = vec![
        identity("Apple", Some(" AAPL ")),
        identity("Cash", None),
        identity("Microsoft", Some("msft")),
        identity("Siemens AG", None),
        identity("Nestle SA", Some("NESN")),
        identity("Unknown", None),
        identity("Nestle SA", Some("  ")),
    ];
    let b = vec![
        identity("Apple Inc", Some("aapl")),
        identity("Microsoft Corp", Some("MSFT")),
        identity("siemens  ag", None),
        identity("Nestle SA", Some("NESN.SW")),
        identity("CASH", None),
        identity("Apple Inc", Some("AAPL")),
    ];
    let matches: Vec<(usize, usize, Option<String>)> = common_holding_matches(&a, &b)
        .into_iter()
        .map(|m| (m.index_a, m.index_b, m.ticker))
        .collect();
    assert_eq!(
        matches,
        vec![
            (0, 5, Some("AAPL".to_owned())),
            (2, 1, Some("msft".to_owned())),
            (3, 2, None),
            (6, 3, Some("NESN.SW".to_owned())),
        ]
    );
    assert!(common_holding_matches(&[], &b).is_empty());
    assert!(common_holding_matches(&a, &[]).is_empty());
}
