use rstock::services::ledger::{
    canonical_sort, check_trade_amounts, dividend_net_income, CanonicalLedger, LedgerAttemptKind,
    LedgerEntry, LedgerEntryKind, LedgerEntryType, LedgerInvariant,
};
use rstock::models::transaction::TxType;

fn entry(id: i32, date: &str, kind: LedgerEntryKind<f64>) -> LedgerEntry<f64> {
    LedgerEntry {
        id,
        asset_id: 7,
        date: date.to_owned(),
        kind,
    }
}

fn buy(units: f64, unit_price_cents: i64, fees_cents: i64) -> LedgerEntryKind<f64> {
    LedgerEntryKind::Buy {
        units,
        unit_price_cents,
        fees_cents,
    }
}

#[test]
fn rejects_duplicate_entry_identities() {
    let result = CanonicalLedger::new(
        7,
        vec![
            entry(1, "2025-01-01", buy(1.0, 1, 0)),
            entry(1, "2025-01-02", buy(1.0, 1, 0)),
        ],
    );

    assert_eq!(
        result.unwrap_err().violated_invariant,
        LedgerInvariant::UniquePositiveEntryIdentity
    );
}

#[test]
fn canonical_ledger_orders_by_date_then_identity() {
    let ledger = CanonicalLedger::new(
        7,
        vec![
            entry(3, "2025-01-02", buy(2.0, 20, 1)),
            entry(2, "2025-01-01", LedgerEntryKind::Split { ratio: 2.0 }),
            entry(1, "2025-01-01", buy(2.0, 10, 1)),
            entry(
                4,
                "2025-01-02",
                LedgerEntryKind::Dividend {
                    gross_amount_cents: 5,
                    deductions_cents: 1,
                },
            ),
        ],
    )
    .unwrap();
    let ids: Vec<i32> = ledger.entries().iter().map(|e| e.id).collect();
    assert_eq!(ids, vec![1, 2, 3, 4]);
    assert_eq!(ledger.asset_id(), 7);
}

#[test]
fn canonical_sort_is_stable_for_equal_keys() {
    let sorted = canonical_sort(vec![
        entry(5, "2025-02-01", buy(1.0, 1, 0)),
        entry(2, "2025-01-01", buy(1.0, 1, 0)),
        entry(2, "2025-01-01", buy(3.0, 1, 0)),
    ]);
    let units: Vec<f64> = sorted
        .iter()
        .map(|e| match e.kind {
            LedgerEntryKind::Buy { units, .. } => units,
            _ => 0.0,
        })
        .collect();
    assert_eq!(units, vec![1.0, 3.0, 1.0]);
    assert_eq!(sorted[2].id, 5);
}

#[test]
fn rejects_non_positive_asset_identity() {
    let error = CanonicalLedger::<f64>::new(0, Vec::new()).unwrap_err();
    assert_eq!(error.violated_invariant, LedgerInvariant::PositiveAssetIdentity);
    assert_eq!(error.entry_type, LedgerEntryType::Ledger);
    assert_eq!(error.entry_id, 0);
}

#[test]
fn rejects_entries_of_another_asset() {
    let mut other = entry(1, "2025-01-01", buy(1.0, 1, 0));
    other.asset_id = 8;
    let error = CanonicalLedger::new(7, vec![other]).unwrap_err();
    assert_eq!(error.violated_invariant, LedgerInvariant::MatchingAssetIdentity);
    assert_eq!(error.asset_id, 7);
}

#[test]
fn rejects_non_canonical_dates() {
    let error = CanonicalLedger::new(7, vec![entry(1, "2025-1-1", buy(1.0, 1, 0))]).unwrap_err();
    assert_eq!(error.violated_invariant, LedgerInvariant::ValidDate);
    assert_eq!(error.date, "2025-1-1");
    assert_eq!(error.entry_type, LedgerEntryType::Buy);
}

#[test]
fn rejects_non_positive_entry_identity() {
    let error = CanonicalLedger::new(7, vec![entry(0, "2025-01-01", buy(1.0, 1, 0))]).unwrap_err();
    assert_eq!(error.violated_invariant, LedgerInvariant::UniquePositiveEntryIdentity);
}

#[test]
fn trade_amount_checks_follow_replay_order() {
    assert!(check_trade_amounts(10, 0).is_ok());
    let price = check_trade_amounts(0, 5).unwrap_err();
    assert_eq!(price.attempted, LedgerAttemptKind::UnitPrice);
    assert_eq!(price.violated_invariant, LedgerInvariant::PositiveValue);
    let fees = check_trade_amounts(10, -1).unwrap_err();
    assert_eq!(fees.attempted, LedgerAttemptKind::Fees);
    assert_eq!(fees.violated_invariant, LedgerInvariant::NonNegativeValue);
}

#[test]
fn dividend_net_income_is_gross_minus_deductions() {
    assert_eq!(dividend_net_income(300, 100, true).unwrap(), 200);
    assert_eq!(
        dividend_net_income(10, 11, true).unwrap_err().violated_invariant,
        LedgerInvariant::DeductionsDoNotExceedGrossDividend
    );
    assert_eq!(
        dividend_net_income(1, 0, false).unwrap_err().violated_invariant,
        LedgerInvariant::OpenQuantityRequired
    );
    assert_eq!(
        dividend_net_income(0, 0, true).unwrap_err().violated_invariant,
        LedgerInvariant::PositiveValue
    );
}

#[test]
fn transaction_fields_map_to_typed_kinds() {
    match LedgerEntryKind::from_transaction_fields(TxType::Dividend, 1.0, 300, 100) {
        LedgerEntryKind::Dividend {
            gross_amount_cents,
            deductions_cents,
        } => {
            assert_eq!(gross_amount_cents, 300);
            assert_eq!(deductions_cents, 100);
        }
        _ => panic!("dividend expected"),
    }
    match LedgerEntryKind::from_transaction_fields(TxType::Split, 4.0, 0, 0) {
        LedgerEntryKind::Split { ratio } => assert_eq!(ratio, 4.0),
        _ => panic!("split expected"),
    }
    assert_eq!(
        LedgerEntryKind::<f64>::from_transaction_fields(TxType::Sell, 1.0, 5, 1).entry_type(),
        LedgerEntryType::Sell
    );
}
