//! The rules behind the HTTP handlers: request validation and credentials.
pub mod auth;
pub mod position;
