//! What holds of the library as a whole.
pub mod amounts;
pub mod arithmetic;
pub mod backtest;
pub mod files;
pub mod learning;
pub mod rates;
pub mod requests;
pub mod schedule;
pub mod simulation;
pub mod solvency;
pub mod statistics;
pub mod trading;
