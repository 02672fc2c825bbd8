//! The market price feed.
pub mod ws;
