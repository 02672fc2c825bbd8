//! Request authentication.
pub mod middleware;
