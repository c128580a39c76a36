//! Centralised constants.
use vstd::prelude::*;

verus! {

/// Every portfolio value is reported in this currency.
pub const BASE_CURRENCY: &'static str = "EUR";

/// The market index that portfolio and fund performance is compared with.
pub const BENCHMARK_TICKER: &'static str = "^GSPC";

pub const BENCHMARK_NAME: &'static str = "S&P 500";

pub const BENCHMARK_CURRENCY: &'static str = "USD";

/// Monetary amounts are stored as integers scaled by this factor (cents).
pub const MONETARY_MULTIPLIER: i64 = 100;

/// Whether a ticker is the benchmark's.
pub fn is_benchmark_ticker(ticker: &str) -> (r: bool)
    ensures
        r == (ticker@ == BENCHMARK_TICKER@),
{
    crate::text::text_eq(ticker, BENCHMARK_TICKER)
}

} // verus!
