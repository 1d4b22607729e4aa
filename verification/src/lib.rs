//! Routing, health, rate-limiting and lifecycle rules of a dual-engine (L4/L7)
//! reverse proxy, stated as contracts and proved.

pub mod addr;
pub mod admin;
pub mod cli;
pub mod clock;
pub mod config;
pub mod daemon;
pub mod float_bits;
pub mod gateway;
pub mod handler;
pub mod health;
pub mod lifecycle;
mod lists;
pub mod pairs;
pub mod proxy_l4;
pub mod proxy_l7;
pub mod ranking;
pub mod rate_limit;
pub mod router;
pub mod selection;
pub mod startup;
pub mod status;
pub mod text;
pub mod tls;
