use rstock::models::asset::AssetType;
use rstock::models::classification::{AssetClass, AssetClassification, Management};
use rstock::models::transaction::TxType;
use rstock::services::export::{export_header, export_text_fields};
use rstock::services::import::{
    expected_header_names, import_order, parse_optional, parse_optional_enum, parse_row_fields, plan_import,
    read_import_records, validate_headers, CsvRow, ImportAsset,
};

// 2025-01-02 is day 739253.
const TODAY: i32 = 739253;

fn header() -> Vec<String> {
    expected_header_names().iter().map(|h| format!(" {h} ")).collect()
}

fn record(fields: [&str; 15]) -> Vec<String> {
    fields.iter().map(|f| f.to_string()).collect()
}

fn buy_record(date: &str, ticker: &str) -> Vec<String> {
    record([
        date, ticker, "Microsoft", "stock", "USD", "", "equity", "", "", "", "", "buy", "1", "390", "0",
    ])
}

#[test]
fn headers_must_follow_the_classified_schema() {
    assert!(validate_headers(&header()).is_ok());
    let mut wrong = header();
    wrong.swap(0, 1);
    let message = validate_headers(&wrong).unwrap_err();
    assert_eq!(
        message,
        "transaction CSV must use classified schema header: Date,Ticker,Name,AssetType,Currency,MorningstarCode,AssetClass,EquityStyle,BondCredit,BondDuration,Management,Type,Quantity,Price,Fees"
    );
    assert!(validate_headers(&header()[..14]).is_err());
}

#[test]
fn exported_header_is_importable() {
    assert!(validate_headers(&export_header()).is_ok());
}

#[test]
fn optional_fields_are_trimmed() {
    assert_eq!(parse_optional("  Sample Fund "), Some("Sample Fund".to_owned()));
    assert_eq!(parse_optional(" \t"), None);
}

#[test]
fn optional_classification_columns() {
    assert_eq!(parse_optional_enum::<AssetClass>(" Fixed-Income ", 4, "AssetClass").unwrap(), Some(AssetClass::FixedIncome));
    assert_eq!(parse_optional_enum::<Management>("", 4, "Management").unwrap(), None);
    assert_eq!(
        parse_optional_enum::<AssetClass>(" bonds ", 4, "AssetClass").unwrap_err(),
        "row 4: invalid AssetClass 'bonds'"
    );
}

#[test]
fn rows_parse_their_text_fields() {
    let row = parse_row_fields(&buy_record(" 26-12-2024 ", " MSFT "), 2, TODAY).unwrap();
    assert_eq!(row.source_row, 2);
    assert_eq!(row.date, TODAY - 7);
    assert_eq!(row.ticker, "MSFT");
    assert_eq!(row.name.as_deref(), Some("Microsoft"));
    assert_eq!(row.asset_type, Some(AssetType::Stock));
    assert_eq!(row.currency.as_deref(), Some("USD"));
    assert_eq!(row.morningstar_code, None);
    assert_eq!(row.classification.asset_class, Some(AssetClass::Equity));
    assert_eq!(row.tx_type, TxType::Buy);
}

#[test]
fn row_errors_name_the_row_and_field() {
    let short: Vec<String> = buy_record("26-12-2024", "MSFT")[..14].to_vec();
    assert_eq!(
        parse_row_fields(&short, 3, TODAY).unwrap_err(),
        "row 3: expected 15 fields for classified transaction CSV schema, got 14"
    );
    assert_eq!(
        parse_row_fields(&buy_record("2024-12-26", "MSFT"), 3, TODAY).unwrap_err(),
        "row 3: invalid date '2024-12-26'"
    );
    assert_eq!(
        parse_row_fields(&buy_record("03-01-2025", "MSFT"), 3, TODAY).unwrap_err(),
        "row 3: date cannot be in the future: 03-01-2025"
    );
    assert_eq!(
        parse_row_fields(&buy_record("02-01-2025", "  "), 3, TODAY).unwrap_err(),
        "row 3: ticker cannot be empty"
    );
    let mut bad_type = buy_record("02-01-2025", "MSFT");
    bad_type[3] = " Bond ".to_owned();
    assert_eq!(parse_row_fields(&bad_type, 3, TODAY).unwrap_err(), "row 3: invalid asset type ' Bond '");
    let mut bad_style = buy_record("02-01-2025", "MSFT");
    bad_style[7] = "fancy".to_owned();
    assert_eq!(parse_row_fields(&bad_style, 3, TODAY).unwrap_err(), "row 3: invalid EquityStyle 'fancy'");
    let mut bad_tx = buy_record("02-01-2025", "MSFT");
    bad_tx[11] = "Buy".to_owned();
    assert_eq!(parse_row_fields(&bad_tx, 3, TODAY).unwrap_err(), "row 3: invalid transaction type 'Buy'");
}

fn row(source_row: usize, date: i32, ticker: &str, tx_type: TxType) -> CsvRow<f64> {
    CsvRow {
        source_row,
        date,
        ticker: ticker.to_owned(),
        name: Some(format!("{ticker} name")),
        asset_type: Some(AssetType::Stock),
        currency: Some("USD".to_owned()),
        morningstar_code: None,
        classification: AssetClassification {
            asset_class: Some(AssetClass::Equity),
            equity_style: None,
            bond_credit: None,
            bond_duration: None,
            management: None,
        },
        tx_type,
        quantity: 1.0,
        price: 10.0,
        fees: 0.0,
    }
}

#[test]
fn rows_are_imported_in_stable_date_order() {
    let rows = vec![
        row(2, 30, "A", TxType::Buy),
        row(3, 10, "B", TxType::Buy),
        row(4, 30, "C", TxType::Buy),
        row(5, 20, "D", TxType::Buy),
    ];
    assert_eq!(import_order(&rows), vec![1, 3, 0, 2]);
}

fn existing() -> Vec<ImportAsset> {
    vec![ImportAsset::from_existing(
        11,
        "MSFT".to_owned(),
        "Microsoft".to_owned(),
        "USD".to_owned(),
        Some("2024-06-01".to_owned()),
    )]
}

#[test]
fn plans_create_assets_from_their_first_buy() {
    let rows = vec![
        row(2, 739250, "NEW", TxType::Buy),
        row(3, 739240, "MSFT", TxType::Sell),
        row(4, 739251, "NEW", TxType::Split),
    ];
    let plan = plan_import(&rows, existing()).unwrap();
    assert_eq!(plan.order, vec![1, 0, 2]);
    assert_eq!(plan.pending_assets.len(), 1);
    assert_eq!(plan.pending_assets[0].info.ticker, "NEW");
    assert_eq!(plan.pending_assets[0].info.name, "NEW name");
    assert_eq!(plan.assets.len(), 2);
    assert_eq!(plan.assets[1].id, -1);
    assert_eq!(plan.assets[1].pending_asset, Some(0));
    assert_eq!(plan.row_assets, vec![0, 1, 1]);
    assert_eq!(plan.split_tickers, vec!["NEW"]);
    // The sell of MSFT on 2024-12-20 is the earliest affected date.
    assert_eq!(plan.invalidation_date.as_deref(), Some("2024-12-20"));
}

#[test]
fn splits_invalidate_from_the_first_transaction() {
    let rows = vec![row(2, 739250, "MSFT", TxType::Split)];
    let plan = plan_import(&rows, existing()).unwrap();
    assert_eq!(plan.invalidation_date.as_deref(), Some("2024-06-01"));
    assert_eq!(plan.split_tickers, vec!["MSFT"]);
    let empty = plan_import::<f64>(&[], existing()).unwrap();
    assert_eq!(empty.invalidation_date, None);
}

#[test]
fn unknown_tickers_need_a_complete_buy() {
    assert_eq!(
        plan_import(&[row(7, 739250, "NEW", TxType::Dividend)], existing()).unwrap_err(),
        "row 7: Asset with ticker 'NEW' not found"
    );
    let mut unnamed = row(8, 739250, "NEW", TxType::Buy);
    unnamed.name = None;
    assert_eq!(
        plan_import(&[unnamed], existing()).unwrap_err(),
        "row 8: buy transaction requires a non-empty Name"
    );
    let mut untyped = row(9, 739250, "NEW", TxType::Buy);
    untyped.asset_type = None;
    assert_eq!(
        plan_import(&[untyped], existing()).unwrap_err(),
        "row 9: buy transaction requires a non-empty AssetType"
    );
    let mut no_currency = row(10, 739250, "NEW", TxType::Buy);
    no_currency.currency = Some(String::new());
    assert_eq!(
        plan_import(&[no_currency], existing()).unwrap_err(),
        "row 10: buy transaction requires a non-empty Currency"
    );
    let mut fund = row(11, 739250, "NEW", TxType::Buy);
    fund.asset_type = Some(AssetType::Fund);
    assert_eq!(
        plan_import(&[fund], existing()).unwrap_err(),
        "row 11: fund and ETF assets require a Morningstar code"
    );
}

#[test]
fn the_first_failing_row_in_date_order_is_reported() {
    let rows = vec![
        row(2, 739250, "LATE", TxType::Sell),
        row(3, 739240, "EARLY", TxType::Sell),
    ];
    assert_eq!(
        plan_import(&rows, existing()).unwrap_err(),
        "row 3: Asset with ticker 'EARLY' not found"
    );
}

#[test]
fn exported_rows_describe_their_asset() {
    let fields = export_text_fields(None, "2025-03-15", TxType::Sell);
    assert_eq!(fields.len(), 12);
    assert_eq!(fields[0], "15-03-2025");
    assert_eq!(fields[1], "unknown");
    assert_eq!(fields[2], "");
    assert_eq!(fields[11], "sell");
}

const CSV_HEADER: &str =
    "Date,Ticker,Name,AssetType,Currency,MorningstarCode,AssetClass,EquityStyle,BondCredit,BondDuration,Management,Type,Quantity,Price,Fees";

#[test]
fn csv_bytes_give_the_rows_after_the_header() {
    let text = format!(
        "{CSV_HEADER}\n2025-01-02,AAPL,Apple,stock,USD,,equity,,,,,buy,1,100,0\n\"2025-01-03\",MSFT,\"Micro, soft\",stock,USD,,equity,,,,,sell,1,90,0\n"
    );
    let records = read_import_records(text.as_bytes()).unwrap();
    assert!(!records.read_failed);
    assert_eq!(records.rows.len(), 2);
    assert_eq!(records.rows[0][1], "AAPL");
    assert_eq!(records.rows[1][0], "2025-01-03");
    assert_eq!(records.rows[1][2], "Micro, soft");
    assert_eq!(records.rows[1].len(), 15);

    // A header only: no rows.
    let records = read_import_records(CSV_HEADER.as_bytes()).unwrap();
    assert!(records.rows.is_empty());
    assert!(!records.read_failed);
}

#[test]
fn csv_bytes_with_a_bad_header_or_record_are_refused() {
    let schema = "transaction CSV must use classified schema header: Date,Ticker,Name,AssetType,Currency,MorningstarCode,AssetClass,EquityStyle,BondCredit,BondDuration,Management,Type,Quantity,Price,Fees";
    assert_eq!(read_import_records(b"").unwrap_err(), schema);
    assert_eq!(read_import_records(b"Date,Ticker\n").unwrap_err(), schema);
    // A record with another number of fields stops the reading after the
    // rows before it.
    let text = format!("{CSV_HEADER}\n2025-01-02,AAPL,Apple,stock,USD,,equity,,,,,buy,1,100,0\nonly,three,fields\n");
    let records = read_import_records(text.as_bytes()).unwrap();
    assert_eq!(records.rows.len(), 1);
    assert!(records.read_failed);
    // A header that is not UTF-8 cannot be read.
    assert!(read_import_records(b"\xff\xfe,Ticker\n").is_err());
}
