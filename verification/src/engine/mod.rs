//! The trading engine: positions, trades, the arithmetic rules, one
//! account's engine and the engine that keeps one account per user.
pub mod accounting;
pub mod engine;
pub mod multi_user_engine;
pub mod event;
pub mod laws;
pub mod position;
pub mod rules;
pub mod trade;
