//! A verified laboratory for algorithmic trading.
pub mod backtest;
pub mod cancellation;
pub mod clock;
pub mod control;
pub mod files;
pub mod fixed;
pub mod grid;
pub mod historical;
pub mod infer;
pub mod laws;
pub mod market_maker;
pub mod metrics;
pub mod number;
pub mod orders;
pub mod report;
pub mod run;
pub mod series;
pub mod state;
pub mod table;
pub mod text;
pub mod train;
