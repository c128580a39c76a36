//! Domain models.
pub mod asset;
pub mod classification;
pub mod market_data;
pub mod transaction;
