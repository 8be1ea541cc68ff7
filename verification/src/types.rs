//! Plain data carried through the book: sides, statuses, orders and trades,
//! each with the mathematical view that the contracts speak of.

use vstd::prelude::*;
use vstd::string::StringExecFns;
use crate::clock::current_timestamp;
use crate::text::{append_decimal, decimal};

verus! {

/// Price in basis points.
pub type Price = u64;

/// Quantity in whole units.
pub type Quantity = u64;

/// Caller-assigned order identifier.
pub type OrderId = u64;

/// Engine-assigned trade identifier.
pub type TradeId = u64;

/// Microseconds since the UNIX epoch.
pub type Timestamp = u64;

/// Market identifier.
pub type MarketId = String;

/// Outcome identifier.
pub type OutcomeId = String;

/// User identifier.
pub type UserId = String;

/// Side of an order.
#[derive(Debug, Clone, Copy, PartialEq, Eq, Structural)]
pub enum Side {
    Buy,
    Sell,
}

impl Side {
    /// The side in words.
    pub open spec fn text(self) -> Seq<char> {
        match self {
            Side::Buy => "BUY"@,
            Side::Sell => "SELL"@,
        }
    }

    /// The side in words: `BUY` or `SELL`.
    pub fn to_text(&self) -> (text: String)
        ensures
            text@ == self.text(),
    {
        match self {
            Side::Buy => String::from_str("BUY"),
            Side::Sell => String::from_str("SELL"),
        }
    }
}

/// Lifecycle status of an order.
#[derive(Debug, Clone, Copy, PartialEq, Eq, Structural)]
pub enum OrderStatus {
    /// Resting or about to rest, nothing filled yet.
    Open,
    /// Some, but not all, of the quantity has traded.
    PartiallyFilled,
    /// Nothing remains to trade.
    Filled,
    /// Withdrawn by its owner.
    Cancelled,
}

/// A limit order.
#[derive(Debug)]
pub struct Order {
    pub id: OrderId,
    pub user_id: UserId,
    pub market_id: MarketId,
    pub outcome_id: OutcomeId,
    pub side: Side,
    pub price: Price,
    pub original_quantity: Quantity,
    pub remaining_quantity: Quantity,
    pub timestamp: Timestamp,
    pub status: OrderStatus,
}

/// What an order is, with its strings as character sequences.
pub ghost struct OrderView {
    pub id: u64,
    pub user_id: Seq<char>,
    pub market_id: Seq<char>,
    pub outcome_id: Seq<char>,
    pub side: Side,
    pub price: u64,
    pub original_quantity: u64,
    pub remaining_quantity: u64,
    pub timestamp: u64,
    pub status: OrderStatus,
}

impl View for Order {
    type V = OrderView;

    open spec fn view(&self) -> OrderView {
        OrderView {
            id: self.id,
            user_id: self.user_id@,
            market_id: self.market_id@,
            outcome_id: self.outcome_id@,
            side: self.side,
            price: self.price,
            original_quantity: self.original_quantity,
            remaining_quantity: self.remaining_quantity,
            timestamp: self.timestamp,
            status: self.status,
        }
    }
}

impl Clone for Order {
    fn clone(&self) -> (copy: Self)
        ensures
            copy == *self,
    {
        Order {
            id: self.id,
            user_id: self.user_id.clone(),
            market_id: self.market_id.clone(),
            outcome_id: self.outcome_id.clone(),
            side: self.side,
            price: self.price,
            original_quantity: self.original_quantity,
            remaining_quantity: self.remaining_quantity,
            timestamp: self.timestamp,
            status: self.status,
        }
    }
}

impl OrderView {
    /// Whether the two orders could trade with each other: they are of
    /// opposite sides, of one market and outcome, of different users, and
    /// the buyer bids at least what the seller asks.
    pub open spec fn can_match(self, other: OrderView) -> bool {
        &&& self.side != other.side
        &&& self.market_id == other.market_id
        &&& self.outcome_id == other.outcome_id
        &&& self.user_id != other.user_id
        &&& match self.side {
            Side::Buy => self.price >= other.price,
            Side::Sell => self.price <= other.price,
        }
    }
}

impl Order {
    /// An open order with nothing filled, stamped with the current time.
    pub fn new(
        id: OrderId,
        user_id: UserId,
        market_id: MarketId,
        outcome_id: OutcomeId,
        side: Side,
        price: Price,
        quantity: Quantity,
    ) -> (order: Self)
        ensures
            order == (Order {
                id,
                user_id,
                market_id,
                outcome_id,
                side,
                price,
                original_quantity: quantity,
                remaining_quantity: quantity,
                timestamp: order.timestamp,
                status: OrderStatus::Open,
            }),
    {
        let timestamp = current_timestamp();
        Order::with_timestamp(
            id,
            user_id,
            market_id,
            outcome_id,
            side,
            price,
            quantity,
            timestamp,
        )
    }

    /// Whether this order could trade with the other.
    pub fn can_match(&self, other: &Order) -> (can: bool)
        ensures
            can == self@.can_match(other@),
    {
        if self.side == other.side {
            return false;
        }
        if !(self.market_id == other.market_id) || !(self.outcome_id == other.outcome_id) {
            return false;
        }
        if self.user_id == other.user_id {
            return false;
        }
        match self.side {
            Side::Buy => self.price >= other.price,
            Side::Sell => self.price <= other.price,
        }
    }

    /// An open order with nothing filled, stamped with the given time.
    pub fn with_timestamp(
        id: OrderId,
        user_id: UserId,
        market_id: MarketId,
        outcome_id: OutcomeId,
        side: Side,
        price: Price,
        quantity: Quantity,
        timestamp: Timestamp,
    ) -> (order: Self)
        ensures
            order == (Order {
                id,
                user_id,
                market_id,
                outcome_id,
                side,
                price,
                original_quantity: quantity,
                remaining_quantity: quantity,
                timestamp,
                status: OrderStatus::Open,
            }),
    {
        Order {
            id,
            user_id,
            market_id,
            outcome_id,
            side,
            price,
            original_quantity: quantity,
            remaining_quantity: quantity,
            timestamp,
            status: OrderStatus::Open,
        }
    }
}


/// One execution between an incoming order (the taker) and a resting one
/// (the maker).
#[derive(Debug)]
pub struct Trade {
    pub id: TradeId,
    pub taker_order_id: OrderId,
    pub maker_order_id: OrderId,
    pub taker_user_id: UserId,
    pub maker_user_id: UserId,
    pub market_id: MarketId,
    pub outcome_id: OutcomeId,
    /// The maker's resting price.
    pub price: Price,
    pub quantity: Quantity,
    pub timestamp: Timestamp,
    pub taker_side: Side,
}

/// What a trade is, with its strings as character sequences.
pub ghost struct TradeView {
    pub id: u64,
    pub taker_order_id: u64,
    pub maker_order_id: u64,
    pub taker_user_id: Seq<char>,
    pub maker_user_id: Seq<char>,
    pub market_id: Seq<char>,
    pub outcome_id: Seq<char>,
    pub price: u64,
    pub quantity: u64,
    pub timestamp: u64,
    pub taker_side: Side,
}

impl View for Trade {
    type V = TradeView;

    open spec fn view(&self) -> TradeView {
        TradeView {
            id: self.id,
            taker_order_id: self.taker_order_id,
            maker_order_id: self.maker_order_id,
            taker_user_id: self.taker_user_id@,
            maker_user_id: self.maker_user_id@,
            market_id: self.market_id@,
            outcome_id: self.outcome_id@,
            price: self.price,
            quantity: self.quantity,
            timestamp: self.timestamp,
            taker_side: self.taker_side,
        }
    }
}

impl Clone for Trade {
    fn clone(&self) -> (copy: Self)
        ensures
            copy == *self,
    {
        Trade {
            id: self.id,
            taker_order_id: self.taker_order_id,
            maker_order_id: self.maker_order_id,
            taker_user_id: self.taker_user_id.clone(),
            maker_user_id: self.maker_user_id.clone(),
            market_id: self.market_id.clone(),
            outcome_id: self.outcome_id.clone(),
            price: self.price,
            quantity: self.quantity,
            timestamp: self.timestamp,
            taker_side: self.taker_side,
        }
    }
}

/// What the order index remembers of an order.
#[derive(Debug, Clone, Copy, PartialEq, Eq, Structural)]
pub struct OrderMetadata {
    /// Price level at which the order rests or rested.
    pub price: Price,
    pub status: OrderStatus,
    pub remaining_quantity: Quantity,
}

/// Why a command was refused.
#[derive(Debug, Clone, Copy, PartialEq, Eq, Structural)]
pub enum OrderBookError {
    /// The identifier is already known to the book.
    DuplicateOrderId(OrderId),
    /// The identifier is unknown to the book.
    OrderNotFound(OrderId),
    OrderAlreadyCancelled(OrderId),
    OrderAlreadyFilled(OrderId),
    /// The price is zero.
    InvalidPrice,
    /// Nothing remains to trade.
    InvalidQuantity,
    /// The order names another market or outcome than the book's.
    MarketMismatch,
}

impl OrderBookError {
    /// The error in words, with the identifier of the order where it has
    /// one.
    pub open spec fn text(self) -> Seq<char> {
        match self {
            OrderBookError::DuplicateOrderId(id) => "Duplicate order ID: "@ + decimal(id as nat),
            OrderBookError::OrderNotFound(id) => "Order not found: "@ + decimal(id as nat),
            OrderBookError::OrderAlreadyCancelled(id) => "Order already cancelled: "@ + decimal(
                id as nat,
            ),
            OrderBookError::OrderAlreadyFilled(id) => "Order already filled: "@ + decimal(
                id as nat,
            ),
            OrderBookError::InvalidPrice => "Invalid price (must be > 0)"@,
            OrderBookError::InvalidQuantity => "Invalid quantity (must be > 0)"@,
            OrderBookError::MarketMismatch => "Market or outcome mismatch"@,
        }
    }

    /// The error in words, with the identifier of the order, in decimal
    /// digits, where it has one.
    pub fn to_text(&self) -> (text: String)
        ensures
            text@ == self.text(),
    {
        match self {
            OrderBookError::DuplicateOrderId(id) => {
                let mut text = String::from_str("Duplicate order ID: ");
                append_decimal(&mut text, *id);
                text
            },
            OrderBookError::OrderNotFound(id) => {
                let mut text = String::from_str("Order not found: ");
                append_decimal(&mut text, *id);
                text
            },
            OrderBookError::OrderAlreadyCancelled(id) => {
                let mut text = String::from_str("Order already cancelled: ");
                append_decimal(&mut text, *id);
                text
            },
            OrderBookError::OrderAlreadyFilled(id) => {
                let mut text = String::from_str("Order already filled: ");
                append_decimal(&mut text, *id);
                text
            },
            OrderBookError::InvalidPrice => String::from_str("Invalid price (must be > 0)"),
            OrderBookError::InvalidQuantity => String::from_str("Invalid quantity (must be > 0)"),
            OrderBookError::MarketMismatch => String::from_str("Market or outcome mismatch"),
        }
    }
}

/// What accepting an order produced.
#[derive(Debug)]
pub struct ProcessOrderResult {
    /// The executions, in the order in which they happened.
    pub trades: Vec<Trade>,
    /// The order as it stands after matching.
    pub order: Order,
}

} // verus!
