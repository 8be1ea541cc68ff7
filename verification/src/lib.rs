//! A central limit order book for one (market, outcome) pair, with
//! price-time priority matching, lazy cancellation and depth queries.

pub mod text;
pub mod types;
pub mod model;
pub mod clock;
pub mod lemmas;
pub mod level;
pub mod side;
pub mod invariants;
pub mod trades;
pub mod guarantees;
pub mod book;

pub use crate::book::OrderBook;
pub use crate::types::{
    MarketId, Order, OrderBookError, OrderId, OrderMetadata, OrderStatus, OrderView, OutcomeId,
    Price, ProcessOrderResult, Quantity, Side, Timestamp, Trade, TradeId, TradeView, UserId,
};
