//! The order book: two sides of price levels, the order index, and the
//! commands and queries on them.

use vstd::prelude::*;
use std::collections::{BTreeMap, HashMap};
use vstd::std_specs::iter::IteratorSpec;
use crate::guarantees::{
    cleanup_keeps_book_uncrossed, order_keeps_book_uncrossed, roomy_book_has_room,
    surely_has_room_for,
};
use crate::invariants::{lemma_after_cancel_wf, lemma_after_cleanup_wf, lemma_after_order_wf};
use crate::lemmas::{lemma_volume_of_prefix, lemma_volume_push};
use crate::level::PriceLevelQueue;
use crate::model::{
    active_ids, depth, fills_in, is_active, is_best, issued_to, level_total, rest, settled, volume, BookView,
};
use crate::side::{
    best_level_price, level_count, levels_view, match_levels, purge_level, quantity_at, top_levels,
};
use crate::types::{
    MarketId, Order, OrderBookError, OrderId, OrderMetadata, OrderStatus, OutcomeId, Price,
    ProcessOrderResult, Quantity, Side, Trade, TradeId,
};

verus! {

/// The central limit order book of one market and outcome.
#[derive(Debug)]
pub struct OrderBook {
    /// Market that the book is for.
    pub market_id: MarketId,
    /// Outcome that the book is for.
    pub outcome_id: OutcomeId,
    /// Buy orders by price.
    bids: BTreeMap<Price, PriceLevelQueue>,
    /// Sell orders by price.
    asks: BTreeMap<Price, PriceLevelQueue>,
    /// Every order that the book knows, resting or not.
    order_index: HashMap<OrderId, OrderMetadata>,
    /// Identifier of the next trade.
    next_trade_id: TradeId,
    /// Number of trades made.
    pub total_trades: u64,
    /// Sum of the quantities traded.
    pub total_volume: Quantity,
}

impl View for OrderBook {
    type V = BookView;

    closed spec fn view(&self) -> BookView {
        BookView {
            market_id: self.market_id@,
            outcome_id: self.outcome_id@,
            bids: levels_view(self.bids@),
            asks: levels_view(self.asks@),
            index: self.order_index@,
            next_trade_id: self.next_trade_id,
            total_trades: self.total_trades,
            total_volume: self.total_volume,
        }
    }
}

/// Sum of the quantities of the trades.
pub fn traded_volume(trades: &Vec<Trade>) -> (sum: Quantity)
    requires
        volume(fills_in(trades@)) <= u64::MAX,
    ensures
        sum == volume(fills_in(trades@)),
{
    let mut sum: u64 = 0;
    let mut i: usize = 0;
    while i < trades.len()
        invariant
            i <= trades.len(),
            sum == volume(fills_in(trades@.subrange(0, i as int))),
            volume(fills_in(trades@)) <= u64::MAX,
        decreases trades.len() - i,
    {
        proof {
            let done = fills_in(trades@.subrange(0, i as int));
            let next = fills_in(trades@.subrange(0, i + 1));
            assert(next =~= done.push(fills_in(trades@)[i as int]));
            lemma_volume_push(done, fills_in(trades@)[i as int]);
            lemma_volume_of_prefix(fills_in(trades@), i + 1);
            assert(fills_in(trades@).subrange(0, i + 1) =~= next);
        }
        sum = sum + trades[i].quantity;
        i = i + 1;
    }
    assert(trades@.subrange(0, i as int) =~= trades@);
    sum
}

impl OrderBook {
    /// Whether the book is sound. Every command keeps it so.
    pub open spec fn wf(&self) -> bool {
        self@.wf()
    }

    /// An empty book for the given market and outcome. Its first trade takes
    /// the identifier 1.
    pub fn new(market_id: MarketId, outcome_id: OutcomeId) -> (book: Self)
        ensures
            book.wf(),
            book@.uncrossed(),
            book@ == (BookView {
                market_id: market_id@,
                outcome_id: outcome_id@,
                bids: Map::empty(),
                asks: Map::empty(),
                index: Map::empty(),
                next_trade_id: 1,
                total_trades: 0,
                total_volume: 0,
            }),
    {
        let book = OrderBook {
            market_id,
            outcome_id,
            bids: BTreeMap::new(),
            asks: BTreeMap::new(),
            order_index: HashMap::new(),
            next_trade_id: 1,
            total_trades: 0,
            total_volume: 0,
        };
        assert(levels_view(book.bids@) =~= Map::empty());
        assert(levels_view(book.asks@) =~= Map::empty());
        book
    }

    /// The market that the book is for.
    pub fn market_id(&self) -> (market_id: &MarketId)
        ensures
            market_id@ == self@.market_id,
    {
        &self.market_id
    }

    /// The outcome that the book is for.
    pub fn outcome_id(&self) -> (outcome_id: &OutcomeId)
        ensures
            outcome_id@ == self@.outcome_id,
    {
        &self.outcome_id
    }

    /// Number of trades made over the life of the book.
    pub fn total_trades(&self) -> (count: u64)
        ensures
            count == self@.total_trades,
    {
        self.total_trades
    }

    /// Sum of the quantities traded over the life of the book.
    pub fn total_volume(&self) -> (sum: Quantity)
        ensures
            sum == self@.total_volume,
    {
        self.total_volume
    }

    /// The highest price at which a buy order rests.
    pub fn best_bid(&self) -> (price: Option<Price>)
        ensures
            price == self@.best_bid(),
            match price {
                Some(p) => is_best(self@.bids, Side::Sell, p),
                None => forall|q: u64| !self@.bids.contains_key(q),
            },
    {
        best_level_price(&self.bids, Side::Sell)
    }

    /// The lowest price at which a sell order rests.
    pub fn best_ask(&self) -> (price: Option<Price>)
        ensures
            price == self@.best_ask(),
            match price {
                Some(p) => is_best(self@.asks, Side::Buy, p),
                None => forall|q: u64| !self@.asks.contains_key(q),
            },
    {
        best_level_price(&self.asks, Side::Buy)
    }

    /// The best ask less the best bid, where both sides have a level and
    /// the ask is the higher.
    pub fn spread(&self) -> (gap: Option<Price>)
        ensures
            gap == self@.spread(),
    {
        match self.best_bid() {
            Some(bid) => match self.best_ask() {
                Some(ask) => if ask > bid {
                    Some(ask - bid)
                } else {
                    None
                },
                None => None,
            },
            None => None,
        }
    }

    /// Cached total of the bid level at the given price, zero where there
    /// is none.
    pub fn bid_quantity_at(&self, price: Price) -> (total: Quantity)
        ensures
            total == level_total(self@.bids, price),
    {
        quantity_at(&self.bids, price)
    }

    /// Cached total of the ask level at the given price, zero where there
    /// is none.
    pub fn ask_quantity_at(&self, price: Price) -> (total: Quantity)
        ensures
            total == level_total(self@.asks, price),
    {
        quantity_at(&self.asks, price)
    }

    /// Number of price levels with buy orders.
    pub fn bid_levels(&self) -> (count: usize)
        ensures
            count == self@.bids.dom().len(),
    {
        level_count(&self.bids)
    }

    /// Number of price levels with sell orders.
    pub fn ask_levels(&self) -> (count: usize)
        ensures
            count == self@.asks.dom().len(),
    {
        level_count(&self.asks)
    }

    /// Number of orders in the index that are open or partially filled.
    pub fn active_orders(&self) -> (count: usize)
        ensures
            count == self@.active_orders(),
    {
        broadcast use vstd::std_specs::hash::group_hash_axioms;
        let ghost index = self.order_index@;
        let ghost entries = self.order_index.iter().remaining();
        let ghost mut seen: int = 0;
        let ghost mut counted: Set<u64> = Set::empty();
        let mut count: usize = 0;
        let known = self.order_index.len();
        for entry in walk: self.order_index.iter()
            invariant
                index == self.order_index@,
                entries.len() == known,
                walk.seq() == entries,
                seen == walk.index(),
                entries.no_duplicates(),
                entries.len() == index.dom().len(),
                forall|i: int|
                    0 <= i < entries.len() ==> index.contains_key(*(#[trigger] entries[i]).0)
                        && index[*entries[i].0] == *entries[i].1,
                forall|k: u64| #[trigger]
                    index.contains_key(k) ==> entries.contains((&k, &index[k])),
                counted.finite(),
                count == counted.len(),
                count <= seen,
                forall|k: u64|
                    counted.contains(k) <==> is_active(index[k].status) && exists|j: int|
                        0 <= j < seen && *(#[trigger] entries[j]).0 == k,
        {
            let (id, metadata) = entry;
            if metadata.status == OrderStatus::Open || metadata.status
                == OrderStatus::PartiallyFilled {
                proof {
                    if counted.contains(*id) {
                        let j = choose|j: int| 0 <= j < seen && *(#[trigger] entries[j]).0 == *id;
                        assert(entries[j] == entries[seen]);
                    }
                    counted = counted.insert(*id);
                }
                count = count + 1;
            }
            proof {
                assert(*entries[seen].0 == *id);
                seen = seen + 1;
            }
        }
        proof {
            let active = active_ids(index);
            assert forall|k: u64| active.contains(k) implies counted.contains(k) by {
                assert(entries.contains((&k, &index[k])));
                let j = choose|j: int| 0 <= j < entries.len() && entries[j] == (&k, &index[k]);
                assert(*entries[j].0 == k);
            }
            assert(counted =~= active);
        }
        count
    }

    /// The best `levels` price levels of each side, bids first and from the
    /// highest price down, asks from the lowest price up, each with its
    /// price and its cached total.
    pub fn get_depth(&self, levels: usize) -> (snapshot: (
        Vec<(Price, Quantity)>,
        Vec<(Price, Quantity)>,
    ))
        ensures
            snapshot.0@ == depth(self@.bids, Side::Sell, levels as nat),
            snapshot.1@ == depth(self@.asks, Side::Buy, levels as nat),
    {
        let bids = top_levels(&self.bids, Side::Sell, levels);
        let asks = top_levels(&self.asks, Side::Buy, levels);
        (bids, asks)
    }

    /// What the index knows of the order, if it knows it.
    fn metadata(&self, order_id: OrderId) -> (found: Option<OrderMetadata>)
        ensures
            found == (if self@.index.contains_key(order_id) {
                Some(self@.index[order_id])
            } else {
                None
            }),
    {
        broadcast use vstd::std_specs::hash::group_hash_axioms;
        match self.order_index.get(&order_id) {
            Some(metadata) => Some(*metadata),
            None => None,
        }
    }

    /// Status of the order, where the index knows it.
    pub fn get_order_status(&self, order_id: OrderId) -> (status: Option<OrderStatus>)
        ensures
            status == self@.order_status(order_id),
    {
        match self.metadata(order_id) {
            Some(metadata) => Some(metadata.status),
            None => None,
        }
    }

    /// What remains of the order, where the index knows it.
    pub fn get_order_remaining(&self, order_id: OrderId) -> (remaining: Option<Quantity>)
        ensures
            remaining == self@.order_remaining(order_id),
    {
        match self.metadata(order_id) {
            Some(metadata) => Some(metadata.remaining_quantity),
            None => None,
        }
    }

    /// Whether the counters of the book and the total of the order's level
    /// are far enough from the 64-bit limit to take the order whatever it
    /// trades: the total of its level by its whole quantity and, where the
    /// best price across is one that it crosses, the trade counters by as
    /// many trades as the index knows orders, or as the order wants units
    /// where that is less, and the volume by its whole quantity. Where they
    /// are, a well-formed book has room for the order.
    pub fn has_room_for(&self, order: &Order) -> (roomy: bool)
        ensures
            roomy == surely_has_room_for(self@, order@),
            roomy && self.wf() ==> self@.has_room_for(order@),
    {
        broadcast use vstd::std_specs::hash::group_hash_axioms;
        let quantity = order.remaining_quantity;
        let known = self.order_index.len();
        let trades = if known as u64 <= quantity {
            known as u64
        } else {
            quantity
        };
        let resting = match order.side {
            Side::Buy => quantity_at(&self.bids, order.price),
            Side::Sell => quantity_at(&self.asks, order.price),
        };
        let best = match order.side {
            Side::Buy => best_level_price(&self.asks, Side::Buy),
            Side::Sell => best_level_price(&self.bids, Side::Sell),
        };
        let meets = match best {
            Some(price) => match order.side {
                Side::Buy => price <= order.price,
                Side::Sell => price >= order.price,
            },
            None => false,
        };
        let roomy = quantity <= u64::MAX - resting && (!meets || (trades <= u64::MAX
            - self.next_trade_id && trades <= u64::MAX - self.total_trades && quantity
            <= u64::MAX - self.total_volume));
        proof {
            if roomy && self.wf() {
                roomy_book_has_room(self@, order@);
            }
        }
        roomy
    }

    /// Accepts a limit order: matches it against the opposite side under
    /// price-time priority, rests what is left of it, enters it in the index
    /// whether anything is left of it or not, and advances the statistics.
    /// Its trades take the numbers after the number of trades made before.
    /// A refused order changes nothing.
    pub fn process_limit_order(&mut self, order: Order) -> (result: Result<
        ProcessOrderResult,
        OrderBookError,
    >)
        requires
            old(self).wf(),
            old(self)@.has_room_for(order@),
        ensures
            final(self).wf(),
            old(self)@.uncrossed() && !old(self)@.matched(order@).blocked
                ==> final(self)@.uncrossed(),
            match result {
                Err(error) => {
                    &&& old(self)@.rejection(order@) == Some(error)
                    &&& final(self)@ == old(self)@
                },
                Ok(done) => {
                    let matched = old(self)@.matched(order@);
                    &&& old(self)@.rejection(order@) is None
                    &&& final(self)@ == old(self)@.after_order(order@)
                    &&& done.order@ == settled(order@, matched.remaining)
                    &&& fills_in(done.trades@) == matched.fills
                    &&& issued_to(done.trades@, 0, order@, old(self)@.next_trade_id as int)
                    &&& issued_to(done.trades@, 0, order@, old(self)@.total_trades + 1)
                },
            },
    {
        broadcast use vstd::std_specs::hash::group_hash_axioms;
        if order.price == 0 {
            return Err(OrderBookError::InvalidPrice);
        }
        if order.remaining_quantity == 0 {
            return Err(OrderBookError::InvalidQuantity);
        }
        if !(order.market_id == self.market_id) || !(order.outcome_id == self.outcome_id) {
            return Err(OrderBookError::MarketMismatch);
        }
        if self.order_index.contains_key(&order.id) {
            return Err(OrderBookError::DuplicateOrderId(order.id));
        }
        proof {
            lemma_after_order_wf(self@, order@);
            if self@.uncrossed() && !self@.matched(order@).blocked {
                order_keeps_book_uncrossed(self@, order@);
            }
        }
        let mut order = order;
        let mut trades: Vec<Trade> = Vec::new();
        match order.side {
            Side::Buy => {
                self.match_buy_order(&mut order, &mut trades);
            },
            Side::Sell => {
                self.match_sell_order(&mut order, &mut trades);
            },
        }
        if order.remaining_quantity > 0 {
            self.add_to_book(order.clone());
        } else {
            self.add_to_index(&order);
        }
        self.total_trades = self.total_trades + trades.len() as u64;
        self.total_volume = self.total_volume + traded_volume(&trades);
        Ok(ProcessOrderResult { trades, order })
    }

    /// Cancels an order in the index alone: the order stays in its queue
    /// until matching or a cleanup meets it.
    pub fn cancel_order(&mut self, order_id: OrderId) -> (result: Result<(), OrderBookError>)
        requires
            old(self).wf(),
        ensures
            final(self).wf(),
            old(self)@.uncrossed() ==> final(self)@.uncrossed(),
            result == old(self)@.cancel_result(order_id),
            final(self)@ == old(self)@.after_cancel(order_id),
    {
        broadcast use vstd::std_specs::hash::group_hash_axioms;
        proof {
            lemma_after_cancel_wf(self@, order_id);
        }
        let metadata = match self.metadata(order_id) {
            Some(metadata) => metadata,
            None => {
                return Err(OrderBookError::OrderNotFound(order_id));
            },
        };
        match metadata.status {
            OrderStatus::Cancelled => Err(OrderBookError::OrderAlreadyCancelled(order_id)),
            OrderStatus::Filled => Err(OrderBookError::OrderAlreadyFilled(order_id)),
            _ => {
                self.order_index.insert(
                    order_id,
                    OrderMetadata {
                        price: metadata.price,
                        status: OrderStatus::Cancelled,
                        remaining_quantity: 0,
                    },
                );
                Ok(())
            },
        }
    }

    /// Takes a cancelled order out of its queue and out of the index, sums
    /// the total of its level anew, and drops that level where nothing is
    /// left in it. An order that is not cancelled stays as it is.
    pub fn cleanup_cancelled_order(&mut self, order_id: OrderId) -> (result: Result<
        (),
        OrderBookError,
    >)
        requires
            old(self).wf(),
        ensures
            final(self).wf(),
            old(self)@.uncrossed() ==> final(self)@.uncrossed(),
            result == old(self)@.cleanup_result(order_id),
            final(self)@ == old(self)@.after_cleanup(order_id),
    {
        broadcast use vstd::std_specs::hash::group_hash_axioms;
        proof {
            lemma_after_cleanup_wf(self@, order_id);
            if self@.uncrossed() {
                cleanup_keeps_book_uncrossed(self@, order_id);
            }
        }
        let metadata = match self.metadata(order_id) {
            Some(metadata) => metadata,
            None => {
                return Err(OrderBookError::OrderNotFound(order_id));
            },
        };
        match metadata.status {
            OrderStatus::Cancelled => {
                proof {
                    let price = metadata.price;
                    if self.bids@.contains_key(price) {
                        assert(self@.bids.contains_key(price));
                        assert(self@.bids[price] == self.bids@[price]@);
                    }
                    if self.asks@.contains_key(price) {
                        assert(self@.asks.contains_key(price));
                        assert(self@.asks[price] == self.asks@[price]@);
                    }
                }
                purge_level(&mut self.bids, metadata.price, order_id);
                purge_level(&mut self.asks, metadata.price, order_id);
                self.order_index.remove(&order_id);
            },
            _ => {},
        }
        Ok(())
    }

    /// Matches a buy order against the asks, lowest price first, and sets
    /// its status by what is left of it.
    fn match_buy_order(&mut self, order: &mut Order, trades: &mut Vec<Trade>)
        requires
            old(order).side == Side::Buy,
            old(trades)@.len() == 0,
            old(self)@.next_trade_id + old(self)@.matched(old(order)@).fills.len() <= u64::MAX,
        ensures
            final(self)@ == old(self)@.after_matching(old(order)@),
            final(order)@ == settled(old(order)@, old(self)@.matched(old(order)@).remaining),
            fills_in(final(trades)@) == old(self)@.matched(old(order)@).fills,
            issued_to(final(trades)@, 0, old(order)@, old(self)@.next_trade_id as int),
    {
        assert(fills_in(trades@) =~= Seq::empty());
        match_levels(
            &mut self.asks,
            &mut self.order_index,
            order,
            trades,
            &mut self.next_trade_id,
        );
        set_taker_status(order);
    }

    /// Matches a sell order against the bids, highest price first, and sets
    /// its status by what is left of it.
    fn match_sell_order(&mut self, order: &mut Order, trades: &mut Vec<Trade>)
        requires
            old(order).side == Side::Sell,
            old(trades)@.len() == 0,
            old(self)@.next_trade_id + old(self)@.matched(old(order)@).fills.len() <= u64::MAX,
        ensures
            final(self)@ == old(self)@.after_matching(old(order)@),
            final(order)@ == settled(old(order)@, old(self)@.matched(old(order)@).remaining),
            fills_in(final(trades)@) == old(self)@.matched(old(order)@).fills,
            issued_to(final(trades)@, 0, old(order)@, old(self)@.next_trade_id as int),
    {
        assert(fills_in(trades@) =~= Seq::empty());
        match_levels(
            &mut self.bids,
            &mut self.order_index,
            order,
            trades,
            &mut self.next_trade_id,
        );
        set_taker_status(order);
    }

    /// Enters the order in the index, without putting it to rest.
    fn add_to_index(&mut self, order: &Order)
        ensures
            final(self)@ == old(self)@.with_known(order@),
    {
        broadcast use vstd::std_specs::hash::group_hash_axioms;
        self.order_index.insert(
            order.id,
            OrderMetadata {
                price: order.price,
                status: order.status,
                remaining_quantity: order.remaining_quantity,
            },
        );
    }

    /// Rests the order on its own side, behind the orders already at its
    /// price, and enters it in the index.
    fn add_to_book(&mut self, order: Order)
        requires
            level_total(old(self)@.own(order.side), order.price) + order.remaining_quantity
                <= u64::MAX,
        ensures
            final(self)@ == old(self)@.with_resting(order@),
    {
        broadcast use vstd::std_specs::btree::group_btree_axioms;
        broadcast use vstd::std_specs::hash::group_hash_axioms;
        let price = order.price;
        let metadata = OrderMetadata {
            price,
            status: order.status,
            remaining_quantity: order.remaining_quantity,
        };
        let id = order.id;
        let ghost shown = order@;
        match order.side {
            Side::Buy => {
                let ghost before = self.bids@;
                let mut level = match self.bids.remove(&price) {
                    Some(level) => level,
                    None => PriceLevelQueue::new(),
                };
                level.push_back(order);
                self.bids.insert(price, level);
                assert(levels_view(self.bids@) =~= rest(levels_view(before), shown));
            },
            Side::Sell => {
                let ghost before = self.asks@;
                let mut level = match self.asks.remove(&price) {
                    Some(level) => level,
                    None => PriceLevelQueue::new(),
                };
                level.push_back(order);
                self.asks.insert(price, level);
                assert(levels_view(self.asks@) =~= rest(levels_view(before), shown));
            },
        }
        self.order_index.insert(id, metadata);
    }
}

/// Sets the status of a taker after matching: filled where nothing is left
/// of it, partially filled where less than its original quantity is left,
/// open otherwise.
pub fn set_taker_status(order: &mut Order)
    ensures
        final(order)@ == settled(old(order)@, old(order).remaining_quantity),
        *final(order) == (Order { status: final(order).status, ..*old(order) }),
{
    if order.remaining_quantity == 0 {
        order.status = OrderStatus::Filled;
    } else if order.remaining_quantity < order.original_quantity {
        order.status = OrderStatus::PartiallyFilled;
    } else {
        order.status = OrderStatus::Open;
    }
}

} // verus!
