//! Integer, boolean and string logic of a Glicko-2 market rating and
//! z-score backtesting engine: candle checks and ordering, symbol grouping,
//! rolling signal windows, tick alignment, the OCO position state machine
//! and position book, trade ledger matching and walk-forward windows.
pub mod align;
pub mod book;
pub mod candle;
pub mod history;
pub mod ledger;
pub mod order;
pub mod portfolio;
pub mod score;
pub mod signal;
pub mod symbols;
pub mod window;
