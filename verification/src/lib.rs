//! Trade execution and live-price distribution core for a simulated stock
//! exchange: an order engine that keeps cash balances, per-ticker positions
//! and an append-only transaction log consistent, a last-price cache fed by
//! an upstream price stream, and the per-connection state machine of the
//! streaming gateway that pushes price updates to subscribed clients.

pub mod auth;
pub mod cache;
pub mod config;
pub mod errors;
pub mod feed;
pub mod gateway;
pub mod ledger;
pub mod money;
pub mod position;
pub mod text;
pub mod validate;
