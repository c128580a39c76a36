//! Verified core of the rstock portfolio tracker: asset and transaction
//! models, the canonical transaction ledger, market-data freshness policy,
//! CSV import planning and the other decisions that do not depend on
//! floating-point arithmetic or on I/O.
pub mod calendar;
pub mod constants;
pub mod models;
pub mod services;
pub mod settings;
pub mod text;
