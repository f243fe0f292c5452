//! myfin: the verified core of a personal A-share screening toolkit.

pub mod date;
pub mod text;
pub mod error;
pub mod symbol;
pub mod dataset;
pub mod registry;
pub mod source;
pub mod http;
pub mod report;
pub mod stage;
pub mod financial;
pub mod layout;
pub mod storage;
pub mod sync;
pub mod backtest;
pub mod takeover;
pub mod universe;
pub mod adapter;
pub mod periods;
pub mod settings;
pub mod laws;
