//! Services: the decisions behind each command.
pub mod analytics;
pub mod assets;
pub mod clock;
pub mod composition;
pub mod exchange_rates;
pub mod export;
pub mod fund_analysis;
pub mod fund_comparison;
pub mod import;
pub mod ledger;
pub mod market_data;
pub mod market_data_policy;
pub mod metrics;
pub mod morningstar;
pub mod nav;
pub mod portfolio;
pub mod transactions;
