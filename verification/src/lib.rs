//! Verified core of a small canteen ordering service: authorization of
//! requests, the idempotency cache, the subject filter guarding the admin
//! routes, and the assembly of orders from database rows.

pub mod error;
pub mod auth;
pub mod model;
pub mod orders;
pub mod cache;
pub mod pointer;
pub mod filter;
pub mod image;
