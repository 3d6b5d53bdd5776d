//! Verified core of a small tool that manages nginx reverse proxies.

pub mod certbot;
pub mod config;
pub mod error;
pub mod proxy;
pub mod text;
pub mod transaction;
