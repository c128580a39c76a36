use rstock::models::transaction::TxType;
use rstock::services::transactions::{
    asset_not_found, delete_invalidation_date, deletion_receipt, earliest_transaction_date, edit_invalidation_date,
    edit_receipt, transaction_not_found, validate_date,
};

// 2025-01-02 is day 739253.
const TODAY: i32 = 739253;

fn dates(values: &[&str]) -> Vec<String> {
    values.iter().map(|d| d.to_string()).collect()
}

#[test]
fn transaction_dates_must_be_canonical_and_past() {
    assert!(validate_date("2025-01-02", TODAY).is_ok());
    assert_eq!(
        validate_date("2025-1-2", TODAY).unwrap_err(),
        "invalid date '2025-1-2', expected YYYY-MM-DD format"
    );
    assert_eq!(
        validate_date("2025-01-03", TODAY).unwrap_err(),
        "date cannot be in the future: 2025-01-03"
    );
}

#[test]
fn earliest_date_includes_the_additional_date() {
    let all = dates(&["2025-03-01", "2024-11-05", "2025-01-01"]);
    assert_eq!(earliest_transaction_date(&all, None), "2024-11-05");
    assert_eq!(earliest_transaction_date(&all, Some("2023-01-01")), "2023-01-01");
    assert_eq!(earliest_transaction_date(&[], None), "");
    assert_eq!(earliest_transaction_date(&[], Some("2025-01-01")), "2025-01-01");
}

#[test]
fn edits_invalidate_from_the_earlier_date() {
    let all = dates(&["2025-03-01", "2024-11-05"]);
    assert_eq!(edit_invalidation_date(TxType::Buy, "2025-03-01", &all, Some("2025-02-01")), "2025-02-01");
    assert_eq!(edit_invalidation_date(TxType::Buy, "2025-03-01", &all, Some("2025-04-01")), "2025-03-01");
    assert_eq!(edit_invalidation_date(TxType::Sell, "2025-03-01", &all, None), "2025-03-01");
    assert_eq!(edit_invalidation_date(TxType::Split, "2025-03-01", &all, Some("2025-04-01")), "2024-11-05");
    assert_eq!(delete_invalidation_date(TxType::Split, "2025-03-01", &all), "2024-11-05");
    assert_eq!(delete_invalidation_date(TxType::Dividend, "2025-03-01", &all), "2025-03-01");
}

#[test]
fn not_found_messages() {
    assert_eq!(
        asset_not_found(TxType::Buy, "MSFT"),
        "asset with ticker 'MSFT' not found; create it first with `rstock portfolio asset add -t MSFT ...`"
    );
    assert_eq!(asset_not_found(TxType::Sell, "MSFT"), "Asset with ticker 'MSFT' not found");
    assert_eq!(transaction_not_found(42), "Transaction 42 not found");
}

#[test]
fn receipts_of_edits_and_deletions() {
    let deleted = deletion_receipt(7);
    assert_eq!(deleted.transaction_id, 7);
    assert_eq!(deleted.summary, "Transaction 7 deleted.");
    assert_eq!(edit_receipt(8).summary, "Transaction 8 updated.");
}
