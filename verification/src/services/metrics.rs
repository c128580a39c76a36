//! The benchmark that portfolio and fund performance is measured against.
use vstd::prelude::*;
use crate::constants::{BENCHMARK_CURRENCY, BENCHMARK_NAME, BENCHMARK_TICKER};
use crate::models::asset::{Asset, AssetInfo, AssetType};

verus! {

pub fn benchmark_asset_info() -> (r: AssetInfo)
    ensures
        r.ticker@ == BENCHMARK_TICKER@,
        r.name@ == BENCHMARK_NAME@,
        r.asset_type == AssetType::Stock,
        r.currency@ == BENCHMARK_CURRENCY@,
{
    AssetInfo {
        ticker: String::from_str(BENCHMARK_TICKER),
        name: String::from_str(BENCHMARK_NAME),
        asset_type: AssetType::Stock,
        currency: String::from_str(BENCHMARK_CURRENCY),
    }
}

/// The benchmark as a stored asset with identifier `id`: an unclassified
/// stock without a Morningstar code.
pub fn benchmark_asset(id: i32) -> (r: Asset)
    ensures
        r.id == id,
        r.ticker@ == BENCHMARK_TICKER@,
        r.name@ == BENCHMARK_NAME@,
        r.asset_type == AssetType::Stock,
        r.currency@ == BENCHMARK_CURRENCY@,
        r.morningstar_code is None,
        r.asset_class is None,
        r.equity_style is None,
        r.bond_credit is None,
        r.bond_duration is None,
        r.management is None,
{
    Asset {
        id,
        ticker: String::from_str(BENCHMARK_TICKER),
        name: String::from_str(BENCHMARK_NAME),
        asset_type: AssetType::Stock,
        currency: String::from_str(BENCHMARK_CURRENCY),
        morningstar_code: None,
        asset_class: None,
        equity_style: None,
        bond_credit: None,
        bond_duration: None,
        management: None,
    }
}

} // verus!
