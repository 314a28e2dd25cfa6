//! Decision core for short-lived crypto strike markets: reference-price
//! aggregation, market classification, lag-signal modelling and the
//! opportunity decision engine, all over fixed-point amounts.

pub mod amount;
pub mod cex;
pub mod config;
pub mod discovery;
pub mod format;
pub mod lag;
pub mod logger;
pub mod models;
pub mod pem;
pub mod strategy;
pub mod summary;
pub mod text;
