use rstock::models::asset::{Asset, AssetType};
use rstock::models::classification::{
    AssetClass, AssetClassification, BondCredit, BondDuration, EquityStyle, Management,
};
use rstock::models::transaction::{display_fees_cents, display_price_cents, TxType};
use rstock::services::assets::{merge_classification, plan_asset_update};

fn asset(asset_type: AssetType, asset_class: Option<&str>, code: Option<&str>) -> Asset {
    Asset {
        id: 1,
        ticker: "FUND1".to_owned(),
        name: "Sample Fund".to_owned(),
        asset_type,
        currency: "EUR".to_owned(),
        morningstar_code: code.map(str::to_owned),
        asset_class: asset_class.map(str::to_owned),
        equity_style: None,
        bond_credit: None,
        bond_duration: None,
        management: Some("active".to_owned()),
    }
}

fn classification(asset_class: Option<AssetClass>) -> AssetClassification {
    AssetClassification {
        asset_class,
        equity_style: None,
        bond_credit: None,
        bond_duration: None,
        management: None,
    }
}

#[test]
fn monetary_assets_are_recognised_in_any_case() {
    assert!(asset(AssetType::Fund, Some("Monetary"), Some("X")).is_monetary());
    assert!(!asset(AssetType::Fund, Some("equity"), Some("X")).is_monetary());
    assert!(!asset(AssetType::Stock, None, None).is_monetary());
}

#[test]
fn asset_and_transaction_types_round_trip_through_text() {
    assert_eq!(AssetType::from_str("etf").unwrap(), AssetType::Etf);
    assert_eq!(AssetType::Fund.to_string(), "fund");
    assert_eq!(AssetType::from_str("bond").unwrap_err(), "unknown asset type: bond");
    assert_eq!(TxType::from_str("dividend").unwrap(), TxType::Dividend);
    assert_eq!(TxType::Split.to_string(), "split");
    assert_eq!(TxType::from_str("Buy").unwrap_err(), "unknown transaction type: Buy");
    assert!(AssetType::Etf.is_fund_like());
    assert!(!AssetType::Stock.is_fund_like());
}

#[test]
fn classification_names_match_the_command_line() {
    assert_eq!(AssetClass::FixedIncome.to_db(), "fixed-income");
    assert_eq!(AssetClass::from_db("REAL-ESTATE"), Some(AssetClass::RealEstate));
    assert_eq!(AssetClass::from_db("real estate"), None);
    assert_eq!(EquityStyle::from_db("Growth"), Some(EquityStyle::Growth));
    assert_eq!(BondCredit::from_db("high-yield"), Some(BondCredit::HighYield));
    assert_eq!(BondDuration::Intermediate.to_db(), "intermediate");
    assert_eq!(Management::from_db("passive"), Some(Management::Passive));
}

#[test]
fn classification_validation_messages() {
    let empty = AssetClassification::empty();
    assert!(empty.is_empty());
    assert_eq!(
        empty.validate_for_asset(&AssetType::Stock, None).unwrap_err(),
        "asset classification is required"
    );
    let mut styled = classification(Some(AssetClass::FixedIncome));
    styled.equity_style = Some(EquityStyle::Value);
    assert_eq!(
        styled.validate_for_asset(&AssetType::Stock, None).unwrap_err(),
        "equity style is only valid for equity assets"
    );
    let mut credit = classification(Some(AssetClass::Equity));
    credit.bond_credit = Some(BondCredit::Government);
    assert_eq!(
        credit.validate_for_asset(&AssetType::Stock, None).unwrap_err(),
        "bond credit is only valid for fixed-income assets"
    );
    let mut duration = classification(Some(AssetClass::Equity));
    duration.bond_duration = Some(BondDuration::Short);
    assert_eq!(
        duration.validate_for_asset(&AssetType::Stock, None).unwrap_err(),
        "bond duration is only valid for fixed-income assets"
    );
    let equity = classification(Some(AssetClass::Equity));
    assert_eq!(
        equity.validate_for_asset(&AssetType::Fund, Some("  ")).unwrap_err(),
        "fund and ETF assets require a Morningstar code"
    );
    assert!(equity.validate_for_asset(&AssetType::Fund, Some("F00000YN5R")).is_ok());
    assert!(equity.validate_for_asset(&AssetType::Stock, None).is_ok());
}

#[test]
fn classification_updates_merge_over_stored_values() {
    let existing = asset(AssetType::Fund, Some("equity"), Some("F1"));
    let merged = merge_classification(&existing, &classification(None)).unwrap();
    assert_eq!(merged.asset_class, Some(AssetClass::Equity));
    assert_eq!(merged.management, Some(Management::Active));
    let updated = merge_classification(&existing, &classification(Some(AssetClass::Monetary))).unwrap();
    assert_eq!(updated.asset_class, Some(AssetClass::Monetary));
    let broken = asset(AssetType::Fund, Some("stocks"), Some("F1"));
    assert_eq!(
        merge_classification(&broken, &classification(Some(AssetClass::Equity))).unwrap_err(),
        "stored asset class value 'stocks' is invalid"
    );
}

#[test]
fn asset_update_plan_invalidates_prices_on_a_new_code() {
    let existing = asset(AssetType::Fund, Some("equity"), Some("F1"));
    let same = plan_asset_update(&existing, &classification(None), Some("F1")).unwrap();
    assert!(!same.invalidate_price_cache);
    let changed = plan_asset_update(&existing, &classification(None), Some("F2")).unwrap();
    assert!(changed.invalidate_price_cache);
    assert_eq!(changed.morningstar_code.as_deref(), Some("F2"));
    let kept = plan_asset_update(&existing, &classification(None), None).unwrap();
    assert_eq!(kept.morningstar_code.as_deref(), Some("F1"));
    let uncoded = asset(AssetType::Fund, Some("equity"), None);
    assert_eq!(
        plan_asset_update(&uncoded, &classification(None), None).err().unwrap(),
        "fund and ETF assets require a Morningstar code"
    );
}

#[test]
fn display_amount_columns_depend_on_type() {
    assert_eq!(display_price_cents(TxType::Buy, Some(1500), None), 1500);
    assert_eq!(display_price_cents(TxType::Dividend, Some(1500), Some(300)), 300);
    assert_eq!(display_price_cents(TxType::Split, Some(1500), Some(300)), 0);
    assert_eq!(display_fees_cents(TxType::Sell, Some(12), None), 12);
    assert_eq!(display_fees_cents(TxType::Dividend, Some(12), Some(40)), 40);
    assert_eq!(display_fees_cents(TxType::Dividend, None, None), 0);
}
