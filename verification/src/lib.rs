//! Deterministic backtesting of listed-option strategies on integer cents.

pub mod config;
pub mod data;
pub mod domain;
pub mod engine;
pub mod error;
pub mod execution;
pub mod text;
