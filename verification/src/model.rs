//! The book as a mathematical object, and every command as a function on it.
//!
//! The executable book is proved to compute these functions; what the
//! library guarantees is proved of them.

use vstd::prelude::*;
use crate::types::{OrderBookError, OrderMetadata, OrderStatus, OrderView, Side, Trade, TradeView};

verus! {

/// One price level: its resting orders, oldest first, and its cached total.
pub ghost struct LevelView {
    pub orders: Seq<OrderView>,
    pub total_quantity: u64,
}

/// Price levels of one side, by price.
pub type Levels = Map<u64, LevelView>;

/// The order index.
pub type Index = Map<u64, OrderMetadata>;

/// The whole book.
pub ghost struct BookView {
    pub market_id: Seq<char>,
    pub outcome_id: Seq<char>,
    pub bids: Levels,
    pub asks: Levels,
    pub index: Index,
    pub next_trade_id: u64,
    pub total_trades: u64,
    pub total_volume: u64,
}

/// What a trade takes from the maker's side: everything in a trade but its
/// identifier, its time and the taker.
pub ghost struct Fill {
    pub maker_order_id: u64,
    pub maker_user_id: Seq<char>,
    pub market_id: Seq<char>,
    pub outcome_id: Seq<char>,
    pub price: u64,
    pub quantity: u64,
}

/// The state of matching one taker against one price level.
pub ghost struct LevelMatching {
    pub level: LevelView,
    pub index: Index,
    /// What the taker still wants.
    pub remaining: u64,
    /// The fills so far, oldest first.
    pub fills: Seq<Fill>,
    /// Whether matching stopped at a resting order of the taker's own user.
    pub blocked: bool,
}

/// The state of matching one taker against one side of the book.
pub ghost struct Matching {
    pub levels: Levels,
    pub index: Index,
    pub remaining: u64,
    pub fills: Seq<Fill>,
    pub blocked: bool,
}

/// A level with no order in it.
pub open spec fn empty_level() -> LevelView {
    LevelView { orders: Seq::empty(), total_quantity: 0 }
}

/// `a - b`, or zero where `b` exceeds `a`.
pub open spec fn sub_or_zero(a: u64, b: u64) -> u64 {
    if a >= b {
        (a - b) as u64
    } else {
        0
    }
}

/// The smaller of two quantities.
pub open spec fn min_quantity(a: u64, b: u64) -> u64 {
    if a <= b {
        a
    } else {
        b
    }
}

/// Sum of what remains of each order.
pub open spec fn sum_remaining(orders: Seq<OrderView>) -> nat
    decreases orders.len(),
{
    if orders.len() == 0 {
        0
    } else {
        orders[0].remaining_quantity as nat + sum_remaining(orders.drop_first())
    }
}

/// Sum of the quantities of the fills.
pub open spec fn volume(fills: Seq<Fill>) -> nat
    decreases fills.len(),
{
    if fills.len() == 0 {
        0
    } else {
        volume(fills.drop_last()) + fills.last().quantity as nat
    }
}

/// Whether the index has the order as cancelled.
pub open spec fn is_cancelled(index: Index, id: u64) -> bool {
    index.contains_key(id) && index[id].status == OrderStatus::Cancelled
}

/// Status of a maker of which `rest` remains after a fill.
pub open spec fn maker_status(rest: u64) -> OrderStatus {
    if rest == 0 {
        OrderStatus::Filled
    } else {
        OrderStatus::PartiallyFilled
    }
}

/// Status of a taker after matching.
pub open spec fn taker_status(original: u64, remaining: u64) -> OrderStatus {
    if remaining == 0 {
        OrderStatus::Filled
    } else if remaining < original {
        OrderStatus::PartiallyFilled
    } else {
        OrderStatus::Open
    }
}

/// The level without its oldest order, its total reduced by what that order
/// still held.
pub open spec fn pop_front(level: LevelView) -> LevelView {
    LevelView {
        orders: level.orders.drop_first(),
        total_quantity: sub_or_zero(level.total_quantity, level.orders[0].remaining_quantity),
    }
}

/// The level without the cancelled orders at its front.
pub open spec fn drop_cancelled(level: LevelView, index: Index) -> LevelView
    decreases level.orders.len(),
{
    if level.orders.len() > 0 && is_cancelled(index, level.orders[0].id) {
        drop_cancelled(pop_front(level), index)
    } else {
        level
    }
}

/// The index after a fill that leaves `rest` of order `id`.
pub open spec fn record_fill(index: Index, id: u64, rest: u64) -> Index {
    if index.contains_key(id) {
        index.insert(
            id,
            OrderMetadata {
                price: index[id].price,
                status: maker_status(rest),
                remaining_quantity: rest,
            },
        )
    } else {
        index
    }
}

/// The fill that takes the given quantity from the maker.
pub open spec fn fill_of(maker: OrderView, quantity: u64) -> Fill {
    Fill {
        maker_order_id: maker.id,
        maker_user_id: maker.user_id,
        market_id: maker.market_id,
        outcome_id: maker.outcome_id,
        price: maker.price,
        quantity,
    }
}

/// The state after the taker trades with the oldest order of the level.
pub open spec fn fill_front(s: LevelMatching) -> LevelMatching {
    let maker = s.level.orders[0];
    let quantity = min_quantity(s.remaining, maker.remaining_quantity);
    let rest = (maker.remaining_quantity - quantity) as u64;
    let total = sub_or_zero(s.level.total_quantity, quantity);
    LevelMatching {
        level: LevelView {
            orders: if rest == 0 {
                s.level.orders.drop_first()
            } else {
                s.level.orders.update(
                    0,
                    OrderView {
                        remaining_quantity: rest,
                        status: OrderStatus::PartiallyFilled,
                        ..maker
                    },
                )
            },
            total_quantity: total,
        },
        index: record_fill(s.index, maker.id, rest),
        remaining: (s.remaining - quantity) as u64,
        fills: s.fills.push(fill_of(maker, quantity)),
        blocked: false,
    }
}

/// Matching against one level, from the oldest order on: cancelled orders are
/// dropped, an order of the taker's own user stops everything, any other
/// order trades as much as both sides allow.
pub open spec fn match_level(taker_user: Seq<char>, s: LevelMatching) -> LevelMatching
    decreases s.level.orders.len(),
{
    if s.remaining == 0 || s.level.orders.len() == 0 {
        s
    } else if is_cancelled(s.index, s.level.orders[0].id) {
        match_level(taker_user, LevelMatching { level: pop_front(s.level), ..s })
    } else if s.level.orders[0].user_id == taker_user {
        LevelMatching { blocked: true, ..s }
    } else if s.level.orders[0].remaining_quantity <= s.remaining {
        match_level(taker_user, fill_front(s))
    } else {
        fill_front(s)
    }
}

/// Whether a level at `level_price` is one that the taker may trade with.
pub open spec fn crosses(taker_side: Side, taker_price: u64, level_price: u64) -> bool {
    match taker_side {
        Side::Buy => level_price <= taker_price,
        Side::Sell => level_price >= taker_price,
    }
}

/// Whether `p` is the price that a taker of the given side meets first: the
/// lowest ask for a buyer, the highest bid for a seller.
pub open spec fn is_best(levels: Levels, taker_side: Side, p: u64) -> bool {
    &&& levels.contains_key(p)
    &&& forall|q: u64| #[trigger]
        levels.contains_key(q) ==> match taker_side {
            Side::Buy => p <= q,
            Side::Sell => p >= q,
        }
}

/// The price that a taker of the given side meets first, if the side that it
/// trades against has a level.
pub open spec fn best_price(levels: Levels, taker_side: Side) -> Option<u64> {
    if exists|p: u64| is_best(levels, taker_side, p) {
        Some(choose|p: u64| is_best(levels, taker_side, p))
    } else {
        None
    }
}

/// Matching against one side, best price first, until the taker is
/// exhausted, a resting order of its own user is met, or no level crosses.
pub open spec fn match_side(taker: OrderView, s: Matching) -> Matching
    decreases s.levels.dom().len(),
    when s.levels.dom().finite()
{
    if s.remaining == 0 {
        s
    } else {
        match best_price(s.levels, taker.side) {
            None => s,
            Some(p) => if !crosses(taker.side, taker.price, p) {
                s
            } else {
                let r = match_level(
                    taker.user_id,
                    LevelMatching {
                        level: s.levels[p],
                        index: s.index,
                        remaining: s.remaining,
                        fills: s.fills,
                        blocked: false,
                    },
                );
                if r.level.orders.len() == 0 {
                    match_side(
                        taker,
                        Matching {
                            levels: s.levels.remove(p),
                            index: r.index,
                            remaining: r.remaining,
                            fills: r.fills,
                            blocked: false,
                        },
                    )
                } else {
                    Matching {
                        levels: s.levels.insert(p, r.level),
                        index: r.index,
                        remaining: r.remaining,
                        fills: r.fills,
                        blocked: r.blocked,
                    }
                }
            },
        }
    }
}

/// Whether an index entry may follow another for the same order: the price
/// is the same, no more remains, an entry that was filled or cancelled is
/// as it was, and one that was partially filled is not open again.
pub open spec fn follows(before: OrderMetadata, after: OrderMetadata) -> bool {
    &&& after.price == before.price
    &&& after.remaining_quantity <= before.remaining_quantity
    &&& !is_active(before.status) ==> after == before
    &&& before.status == OrderStatus::PartiallyFilled ==> after.status != OrderStatus::Open
}

/// Whether the second index knows every order that the first knows, each
/// with an entry that may follow the entry it had.
pub open spec fn index_follows(before: Index, after: Index) -> bool {
    forall|id: u64| #[trigger]
        before.contains_key(id) ==> after.contains_key(id) && follows(before[id], after[id])
}

/// Whether an order may rest at the given side and price of a book of the
/// given market and outcome, with the given index: it is of that side, price,
/// market and outcome, the index knows it at that price and, unless the index
/// has it cancelled, agrees with it on a status that can trade and on a
/// quantity above zero.
pub open spec fn resident_ok(
    index: Index,
    market_id: Seq<char>,
    outcome_id: Seq<char>,
    side: Side,
    price: u64,
    order: OrderView,
) -> bool {
    &&& order.side == side
    &&& order.price == price
    &&& order.market_id == market_id
    &&& order.outcome_id == outcome_id
    &&& index.contains_key(order.id)
    &&& index[order.id].price == price
    &&& index[order.id].status != OrderStatus::Cancelled ==> {
        &&& order.remaining_quantity > 0
        &&& is_active(order.status)
        &&& index[order.id].remaining_quantity == order.remaining_quantity
        &&& index[order.id].status == order.status
    }
}

/// Whether the orders may rest together in one queue: each may rest there,
/// and no identifier occurs twice.
pub open spec fn queue_ok(
    index: Index,
    market_id: Seq<char>,
    outcome_id: Seq<char>,
    side: Side,
    price: u64,
    orders: Seq<OrderView>,
) -> bool {
    &&& forall|i: int|
        0 <= i < orders.len() ==> resident_ok(
            index,
            market_id,
            outcome_id,
            side,
            price,
            #[trigger] orders[i],
        )
    &&& forall|i: int, j: int|
        0 <= i < j < orders.len() ==> (#[trigger] orders[i]).id != (#[trigger] orders[j]).id
}

/// Whether a level is sound: it holds an order, its orders may rest together,
/// and its total is the sum of what remains of them.
pub open spec fn level_wf(
    index: Index,
    market_id: Seq<char>,
    outcome_id: Seq<char>,
    side: Side,
    price: u64,
    level: LevelView,
) -> bool {
    &&& level.orders.len() > 0
    &&& level.total_quantity == sum_remaining(level.orders)
    &&& queue_ok(index, market_id, outcome_id, side, price, level.orders)
}

/// Whether a side is sound: it has finitely many levels, each of them sound.
pub open spec fn side_wf(
    index: Index,
    market_id: Seq<char>,
    outcome_id: Seq<char>,
    side: Side,
    levels: Levels,
) -> bool {
    &&& levels.dom().finite()
    &&& forall|p: u64| #[trigger]
        levels.contains_key(p) ==> level_wf(index, market_id, outcome_id, side, p, levels[p])
}

/// Whether no order of the queue has the given identifier.
pub open spec fn absent(orders: Seq<OrderView>, id: u64) -> bool {
    forall|i: int| 0 <= i < orders.len() ==> (#[trigger] orders[i]).id != id
}

/// Whether no identifier rests on both sides.
pub open spec fn disjoint_sides(bids: Levels, asks: Levels) -> bool {
    forall|p: u64, i: int|
        #![trigger bids[p].orders[i]]
        bids.contains_key(p) && asks.contains_key(p) && 0 <= i < bids[p].orders.len() ==> absent(
            asks[p].orders,
            bids[p].orders[i].id,
        )
}

impl BookView {
    /// Whether what rests in the book is sound: both sides are, no identifier
    /// rests on both, and the index is finite.
    pub open spec fn sound(self) -> bool {
        &&& side_wf(self.index, self.market_id, self.outcome_id, Side::Buy, self.bids)
        &&& side_wf(self.index, self.market_id, self.outcome_id, Side::Sell, self.asks)
        &&& disjoint_sides(self.bids, self.asks)
        &&& self.index.dom().finite()
    }

    /// Whether the book is well formed: what rests in it is sound, and the
    /// next trade takes the identifier after the number of trades made, so
    /// that the trades of the book are numbered 1, 2, 3 and so on.
    pub open spec fn wf(self) -> bool {
        &&& self.sound()
        &&& self.next_trade_id == self.total_trades + 1
    }

    /// Whether no bid is as high as any ask.
    pub open spec fn uncrossed(self) -> bool {
        forall|bid: u64, ask: u64|
            #![trigger self.bids.contains_key(bid), self.asks.contains_key(ask)]
            self.bids.contains_key(bid) && self.asks.contains_key(ask) ==> bid < ask
    }

    /// The side that an order of the given side trades against.
    pub open spec fn opposite(self, side: Side) -> Levels {
        match side {
            Side::Buy => self.asks,
            Side::Sell => self.bids,
        }
    }

    /// The side on which an order of the given side rests.
    pub open spec fn own(self, side: Side) -> Levels {
        match side {
            Side::Buy => self.bids,
            Side::Sell => self.asks,
        }
    }

    /// Why the order is refused, if it is.
    pub open spec fn rejection(self, order: OrderView) -> Option<OrderBookError> {
        if order.price == 0 {
            Some(OrderBookError::InvalidPrice)
        } else if order.remaining_quantity == 0 {
            Some(OrderBookError::InvalidQuantity)
        } else if order.market_id != self.market_id || order.outcome_id != self.outcome_id {
            Some(OrderBookError::MarketMismatch)
        } else if self.index.contains_key(order.id) {
            Some(OrderBookError::DuplicateOrderId(order.id))
        } else {
            None
        }
    }

    /// The outcome of matching the order against the opposite side.
    pub open spec fn matched(self, order: OrderView) -> Matching {
        match_side(
            order,
            Matching {
                levels: self.opposite(order.side),
                index: self.index,
                remaining: order.remaining_quantity,
                fills: Seq::empty(),
                blocked: false,
            },
        )
    }

    /// The book with the given levels on the given side.
    pub open spec fn with_side(self, side: Side, levels: Levels) -> BookView {
        match side {
            Side::Buy => BookView { bids: levels, ..self },
            Side::Sell => BookView { asks: levels, ..self },
        }
    }

    /// The book after matching the order: the opposite side and the index as
    /// matching left them, one trade identifier used for each fill.
    pub open spec fn after_matching(self, order: OrderView) -> BookView {
        let m = self.matched(order);
        let book = BookView {
            index: m.index,
            next_trade_id: (self.next_trade_id + m.fills.len()) as u64,
            ..self
        };
        match order.side {
            Side::Buy => BookView { asks: m.levels, ..book },
            Side::Sell => BookView { bids: m.levels, ..book },
        }
    }

    /// The book with the order entered in the index, resting nowhere.
    pub open spec fn with_known(self, order: OrderView) -> BookView {
        BookView { index: self.index.insert(order.id, metadata_of(order)), ..self }
    }

    /// The book with the order resting on its own side, behind the orders
    /// already at its price, and entered in the index.
    pub open spec fn with_resting(self, order: OrderView) -> BookView {
        let book = self.with_known(order);
        match order.side {
            Side::Buy => BookView { bids: rest(self.bids, order), ..book },
            Side::Sell => BookView { asks: rest(self.asks, order), ..book },
        }
    }

    /// The book after the trades of an accepted order: matched, and the
    /// statistics advanced by the trades.
    pub open spec fn after_trades(self, order: OrderView) -> BookView {
        let m = self.matched(order);
        BookView {
            total_trades: (self.total_trades + m.fills.len()) as u64,
            total_volume: (self.total_volume + volume(m.fills)) as u64,
            ..self.after_matching(order)
        }
    }

    /// The book after an accepted order: after its trades, with the order in
    /// the index from then on, and with what is left of it, if anything,
    /// resting.
    pub open spec fn after_order(self, order: OrderView) -> BookView {
        let m = self.matched(order);
        let taker = settled(order, m.remaining);
        if m.remaining > 0 {
            self.after_trades(order).with_resting(taker)
        } else {
            self.after_trades(order).with_known(taker)
        }
    }

    /// Whether the counters and the level total can take the order: nothing
    /// that accepting it adds to exceeds 64 bits.
    pub open spec fn has_room_for(self, order: OrderView) -> bool {
        let m = self.matched(order);
        self.rejection(order) is None ==> {
            &&& self.next_trade_id + m.fills.len() <= u64::MAX
            &&& self.total_trades + m.fills.len() <= u64::MAX
            &&& self.total_volume + volume(m.fills) <= u64::MAX
            &&& m.remaining > 0 ==> level_total(self.own(order.side), order.price) + m.remaining
                <= u64::MAX
        }
    }

    /// What cancelling the order answers.
    pub open spec fn cancel_result(self, id: u64) -> Result<(), OrderBookError> {
        if !self.index.contains_key(id) {
            Err(OrderBookError::OrderNotFound(id))
        } else if self.index[id].status == OrderStatus::Cancelled {
            Err(OrderBookError::OrderAlreadyCancelled(id))
        } else if self.index[id].status == OrderStatus::Filled {
            Err(OrderBookError::OrderAlreadyFilled(id))
        } else {
            Ok(())
        }
    }

    /// The book after cancelling the order: only its index entry changes, and
    /// only where the cancellation succeeds.
    pub open spec fn after_cancel(self, id: u64) -> BookView {
        if self.cancel_result(id) is Ok {
            BookView {
                index: self.index.insert(
                    id,
                    OrderMetadata {
                        price: self.index[id].price,
                        status: OrderStatus::Cancelled,
                        remaining_quantity: 0,
                    },
                ),
                ..self
            }
        } else {
            self
        }
    }

    /// What the cleanup of the order answers.
    pub open spec fn cleanup_result(self, id: u64) -> Result<(), OrderBookError> {
        if self.index.contains_key(id) {
            Ok(())
        } else {
            Err(OrderBookError::OrderNotFound(id))
        }
    }

    /// The book after the cleanup of the order: a cancelled order leaves its
    /// level and the index, anything else changes nothing.
    pub open spec fn after_cleanup(self, id: u64) -> BookView {
        if is_cancelled(self.index, id) {
            let price = self.index[id].price;
            BookView {
                bids: purge(self.bids, price, id),
                asks: purge(self.asks, price, id),
                index: self.index.remove(id),
                ..self
            }
        } else {
            self
        }
    }

    /// The highest bid: what a seller meets first.
    pub open spec fn best_bid(self) -> Option<u64> {
        best_price(self.bids, Side::Sell)
    }

    /// The lowest ask: what a buyer meets first.
    pub open spec fn best_ask(self) -> Option<u64> {
        best_price(self.asks, Side::Buy)
    }

    /// The best ask less the best bid, where both exist and the ask is the
    /// higher.
    pub open spec fn spread(self) -> Option<u64> {
        match (self.best_bid(), self.best_ask()) {
            (Some(bid), Some(ask)) => if ask > bid {
                Some((ask - bid) as u64)
            } else {
                None
            },
            _ => None,
        }
    }

    /// Status of the order, where the index knows it.
    pub open spec fn order_status(self, id: u64) -> Option<OrderStatus> {
        if self.index.contains_key(id) {
            Some(self.index[id].status)
        } else {
            None
        }
    }

    /// What remains of the order, where the index knows it.
    pub open spec fn order_remaining(self, id: u64) -> Option<u64> {
        if self.index.contains_key(id) {
            Some(self.index[id].remaining_quantity)
        } else {
            None
        }
    }

    /// Number of orders that can still trade.
    pub open spec fn active_orders(self) -> nat {
        active_ids(self.index).len()
    }
}

/// The orders that the index has as open or partially filled.
pub open spec fn active_ids(index: Index) -> Set<u64> {
    index.dom().filter(|id: u64| is_active(index[id].status))
}

/// Whether an order of this status can still trade.
pub open spec fn is_active(status: OrderStatus) -> bool {
    status == OrderStatus::Open || status == OrderStatus::PartiallyFilled
}

/// The taker after matching, with `remaining` left of it.
pub open spec fn settled(order: OrderView, remaining: u64) -> OrderView {
    OrderView {
        remaining_quantity: remaining,
        status: taker_status(order.original_quantity, remaining),
        ..order
    }
}

/// What the index remembers of the order.
pub open spec fn metadata_of(order: OrderView) -> OrderMetadata {
    OrderMetadata {
        price: order.price,
        status: order.status,
        remaining_quantity: order.remaining_quantity,
    }
}

/// Cached total of the level at `price`, zero where there is none.
pub open spec fn level_total(levels: Levels, price: u64) -> u64 {
    if levels.contains_key(price) {
        levels[price].total_quantity
    } else {
        0
    }
}

/// The level with one more order behind the others.
pub open spec fn push_back(level: LevelView, order: OrderView) -> LevelView {
    LevelView {
        orders: level.orders.push(order),
        total_quantity: (level.total_quantity + order.remaining_quantity) as u64,
    }
}

/// The side with the order resting at its price, behind those already there.
pub open spec fn rest(levels: Levels, order: OrderView) -> Levels {
    let level = if levels.contains_key(order.price) {
        levels[order.price]
    } else {
        empty_level()
    };
    levels.insert(order.price, push_back(level, order))
}

/// The level without the orders of the given identifier, its total summed
/// anew over those that stay.
pub open spec fn without_order(level: LevelView, id: u64) -> LevelView {
    let kept = level.orders.filter(|o: OrderView| o.id != id);
    LevelView { orders: kept, total_quantity: sum_remaining(kept) as u64 }
}

/// The side with the order removed from the level at `price`, and that level
/// dropped where nothing is left in it.
pub open spec fn purge(levels: Levels, price: u64, id: u64) -> Levels {
    if levels.contains_key(price) {
        let level = without_order(levels[price], id);
        if level.orders.len() == 0 {
            levels.remove(price)
        } else {
            levels.insert(price, level)
        }
    } else {
        levels
    }
}

/// The first `count` levels that a taker of the given side would meet, best
/// price first, each with its price and its cached total.
pub open spec fn depth(levels: Levels, taker_side: Side, count: nat) -> Seq<(u64, u64)>
    decreases count,
{
    if count == 0 {
        Seq::empty()
    } else {
        match best_price(levels, taker_side) {
            None => Seq::empty(),
            Some(p) => seq![(p, levels[p].total_quantity)] + depth(
                levels.remove(p),
                taker_side,
                (count - 1) as nat,
            ),
        }
    }
}

/// The trade that a fill gives once it has an identifier, a time and a taker.
pub open spec fn trade_view(taker: OrderView, fill: Fill, id: u64, timestamp: u64) -> TradeView {
    TradeView {
        id,
        taker_order_id: taker.id,
        maker_order_id: fill.maker_order_id,
        taker_user_id: taker.user_id,
        maker_user_id: fill.maker_user_id,
        market_id: fill.market_id,
        outcome_id: fill.outcome_id,
        price: fill.price,
        quantity: fill.quantity,
        timestamp,
        taker_side: taker.side,
    }
}

/// The fill that a trade records.
pub open spec fn fill_in(trade: TradeView) -> Fill {
    Fill {
        maker_order_id: trade.maker_order_id,
        maker_user_id: trade.maker_user_id,
        market_id: trade.market_id,
        outcome_id: trade.outcome_id,
        price: trade.price,
        quantity: trade.quantity,
    }
}

/// The fills that the trades record, in the same order.
pub open spec fn fills_in(trades: Seq<Trade>) -> Seq<Fill> {
    Seq::new(trades.len(), |i: int| fill_in(trades[i]@))
}

/// Whether the trades from position `from` on carry consecutive identifiers,
/// the one at `from` being `first_id`, and the taker's identity.
pub open spec fn issued_to(trades: Seq<Trade>, from: int, taker: OrderView, first_id: int) -> bool {
    forall|i: int|
        from <= i < trades.len() ==> {
            &&& (#[trigger] trades[i]).id == first_id + (i - from)
            &&& trades[i].taker_order_id == taker.id
            &&& trades[i].taker_user_id@ == taker.user_id
            &&& trades[i].taker_side == taker.side
        }
}

} // verus!
