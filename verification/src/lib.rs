//! A perpetual futures trading engine: leveraged long and short positions,
//! mark-to-market profit and loss, funding payments and liquidation.
pub mod api;
pub mod auth;
pub mod decimal;
pub mod decimal_order;
pub mod engine;
pub mod market;
pub mod runtime;
