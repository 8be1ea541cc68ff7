//! What the book guarantees, proved of the model that the executable book
//! computes.

use vstd::prelude::*;
use crate::invariants::{
    lemma_after_matching_sound, lemma_after_order_sound, lemma_purge_unlisted,
    lemma_sound_is_pair_ok, lemma_unknown_is_unlisted, may_rest, other_side, unlisted,
};
use crate::lemmas::{lemma_filter_keeps_all, lemma_sum_splits};
use crate::model::{
    absent, best_price, crosses, empty_level, index_follows, is_active, is_best, is_cancelled,
    level_total, level_wf, metadata_of, purge, push_back, resident_ok, rest, settled,
    sum_remaining, taker_status, volume, without_order, BookView, Matching,
};
use crate::trades::{
    lemma_active_ids_finite, lemma_count_below_volume, lemma_match_side_trades, same_prices,
    sound_fills,
};
use crate::types::{OrderBookError, OrderStatus, OrderView, Side};

verus! {

/// What holds of matching an order against a sound book: every fill is
/// sound; there are no more fills than orders that could trade before; the
/// fills add up to what the order loses; the index knows the same
/// orders at the same prices after as before, none with more left of it, none
/// that was filled or cancelled changed; the opposite side keeps to the
/// levels it had; unless the order is exhausted or stopped by an order of its
/// own user, no level is left that its price crosses; and where it is
/// stopped so, something is left of it and such a level is left.
pub proof fn matching_facts(book: BookView, order: OrderView)
    requires
        book.wf(),
    ensures
        ({
            let m = book.matched(order);
            &&& sound_fills(book, order, m.fills)
            &&& m.fills.len() <= book.active_orders() <= book.index.dom().len()
            &&& volume(m.fills) + m.remaining == order.remaining_quantity
            &&& same_prices(book.index, m.index)
            &&& index_follows(book.index, m.index)
            &&& forall|q: u64| #[trigger]
                m.levels.contains_key(q) ==> book.opposite(order.side).contains_key(q)
            &&& m.remaining > 0 && !m.blocked ==> forall|q: u64| #[trigger]
                m.levels.contains_key(q) ==> !crosses(order.side, order.price, q)
            &&& m.blocked ==> m.remaining > 0 && exists|q: u64| #[trigger]
                m.levels.contains_key(q) && crosses(order.side, order.price, q)
        }),
{
    let side = other_side(order.side);
    lemma_sound_is_pair_ok(book, side);
    assert(book.own(side) == book.opposite(order.side));
    assert(book.opposite(side) == book.own(order.side));
    let start = Matching {
        levels: book.opposite(order.side),
        index: book.index,
        remaining: order.remaining_quantity,
        fills: Seq::empty(),
        blocked: false,
    };
    lemma_match_side_trades(book, order, start, book.own(order.side));
    lemma_active_ids_finite(book.index);
}

/// Every trade of an accepted order is for a quantity above zero, between
/// two different users, in the book's market and outcome, at the price at
/// which the maker rested, and that price is one that the taker accepts.
pub proof fn trades_are_sound(book: BookView, order: OrderView)
    requires
        book.wf(),
    ensures
        sound_fills(book, order, book.matched(order).fills),
{
    matching_facts(book, order);
}

/// The quantities of the trades of an order add up to what the order loses
/// in matching. There are no more trades than units traded, and no more
/// than orders that could trade before.
pub proof fn trades_add_up(book: BookView, order: OrderView)
    requires
        book.wf(),
    ensures
        volume(book.matched(order).fills) + book.matched(order).remaining
            == order.remaining_quantity,
        book.matched(order).fills.len() <= volume(book.matched(order).fills),
        book.matched(order).fills.len() <= book.active_orders() <= book.index.dom().len(),
{
    matching_facts(book, order);
    lemma_count_below_volume(book, order, book.matched(order).fills);
}

/// The most trades that an order can make, as far as the size of the index
/// and its own quantity tell: no more than the orders that the index knows,
/// and no more than the units that it wants.
pub open spec fn most_trades(book: BookView, order: OrderView) -> nat {
    if book.index.dom().len() <= order.remaining_quantity {
        book.index.dom().len()
    } else {
        order.remaining_quantity as nat
    }
}

/// Whether the best price of the side that the order trades against is one
/// that the order's price crosses. Where it is not, the order trades
/// nothing.
pub open spec fn meets_a_level(book: BookView, order: OrderView) -> bool {
    match best_price(book.opposite(order.side), order.side) {
        Some(p) => crosses(order.side, order.price, p),
        None => false,
    }
}

/// An order that meets no level that its price crosses trades nothing.
pub proof fn order_that_meets_no_level_trades_nothing(book: BookView, order: OrderView)
    requires
        book.wf(),
        !meets_a_level(book, order),
    ensures
        book.matched(order).fills.len() == 0,
        book.matched(order).remaining == order.remaining_quantity,
        book.matched(order).levels == book.opposite(order.side),
        book.matched(order).index == book.index,
{
}

/// Whether the counters of the book and the total of the order's level are
/// far enough from the 64-bit limit to take the order whatever it trades:
/// the total of its level can take its whole quantity and, where it meets a
/// level that its price crosses, the trade counters can take the most trades
/// that it can make and the volume its whole quantity.
pub open spec fn surely_has_room_for(book: BookView, order: OrderView) -> bool {
    &&& level_total(book.own(order.side), order.price) + order.remaining_quantity <= u64::MAX
    &&& meets_a_level(book, order) ==> {
        &&& book.next_trade_id + most_trades(book, order) <= u64::MAX
        &&& book.total_trades + most_trades(book, order) <= u64::MAX
        &&& book.total_volume + order.remaining_quantity <= u64::MAX
    }
}

/// A sound book that is far enough from the 64-bit limit has room for the
/// order.
pub proof fn roomy_book_has_room(book: BookView, order: OrderView)
    requires
        book.wf(),
        surely_has_room_for(book, order),
    ensures
        book.has_room_for(order),
{
    trades_add_up(book, order);
    if !meets_a_level(book, order) {
        order_that_meets_no_level_trades_nothing(book, order);
    }
}

/// The statistics advance by the trades: the number of trades by their
/// count, the volume by the sum of their quantities, and the next trade
/// identifier by their count.
pub proof fn statistics_follow_trades(book: BookView, order: OrderView)
    requires
        book.rejection(order) is None,
        book.has_room_for(order),
    ensures
        book.after_order(order).total_trades == book.total_trades + book.matched(
            order,
        ).fills.len(),
        book.after_order(order).total_volume == book.total_volume + volume(
            book.matched(order).fills,
        ),
        book.after_order(order).next_trade_id == book.next_trade_id + book.matched(
            order,
        ).fills.len(),
{
}

/// The trades of a book are numbered 1, 2, 3 and so on in the order in which
/// they are made: a new book has made none and gives its first trade the
/// number 1, the trades of an accepted order take the numbers after the
/// number of trades made before it, and no number is used by an order that
/// makes no trade.
pub proof fn trades_are_numbered_in_order(book: BookView, order: OrderView)
    requires
        book.wf(),
        book.rejection(order) is None,
        book.has_room_for(order),
    ensures
        book.next_trade_id == book.total_trades + 1,
        book.after_order(order).total_trades == book.total_trades + book.matched(
            order,
        ).fills.len(),
        book.after_order(order).next_trade_id == book.after_order(order).total_trades + 1,
        book.after_order(order).wf(),
{
    lemma_after_order_sound(book, order);
}

/// After an accepted order, either nothing is left of it, it is filled, its
/// own side is as it was and it rests in no level, or what is left of it is
/// what it had less what it traded, and it rests with that, last in the
/// level at its price on its own side, whose total has grown by it. Either
/// way the index has it with its status and what is left of it.
pub proof fn order_is_filled_or_rests(book: BookView, order: OrderView)
    requires
        book.wf(),
        book.rejection(order) is None,
        book.has_room_for(order),
    ensures
        ({
            let m = book.matched(order);
            let after = book.after_order(order);
            let taker = settled(order, m.remaining);
            &&& after.index.contains_key(order.id)
            &&& after.index[order.id] == metadata_of(taker)
            &&& m.remaining == order.remaining_quantity - volume(m.fills)
            &&& if m.remaining == 0 {
                &&& taker.status == OrderStatus::Filled
                &&& after.own(order.side) == book.own(order.side)
                &&& unlisted(after.bids, order.id)
                &&& unlisted(after.asks, order.id)
            } else {
                &&& is_active(taker.status)
                &&& after.own(order.side) == rest(book.own(order.side), taker)
                &&& after.own(order.side).contains_key(order.price)
                &&& after.own(order.side)[order.price].orders.last() == taker
                &&& level_total(after.own(order.side), order.price) == level_total(
                    book.own(order.side),
                    order.price,
                ) + m.remaining
            }
        }),
{
    let m = book.matched(order);
    let after = book.after_order(order);
    let traded = book.after_trades(order);
    matching_facts(book, order);
    lemma_after_matching_sound(book, order);
    assert(traded.sound());
    if m.remaining == 0 {
        assert(!traded.index.contains_key(order.id)) by {
            assert(!book.index.dom().contains(order.id));
        }
        lemma_unknown_is_unlisted(
            traded.index,
            traded.market_id,
            traded.outcome_id,
            Side::Buy,
            traded.bids,
            order.id,
        );
        lemma_unknown_is_unlisted(
            traded.index,
            traded.market_id,
            traded.outcome_id,
            Side::Sell,
            traded.asks,
            order.id,
        );
    }
}

/// Every accepted order is known to the index from then on, with its status
/// and what is left of it, whether it came to rest or was filled on arrival.
pub proof fn accepted_order_is_known(book: BookView, order: OrderView)
    requires
        book.rejection(order) is None,
    ensures
        book.after_order(order).order_status(order.id) == Some(
            taker_status(order.original_quantity, book.matched(order).remaining),
        ),
        book.after_order(order).order_remaining(order.id) == Some(
            book.matched(order).remaining,
        ),
        book.after_order(order).rejection(order) == Some(
            OrderBookError::DuplicateOrderId(order.id),
        ),
{
}

/// An order that the index knows stays known when another order is
/// accepted.
pub proof fn known_orders_stay_known_after_order(book: BookView, order: OrderView, id: u64)
    requires
        book.wf(),
        book.index.contains_key(id),
    ensures
        book.after_order(order).index.contains_key(id),
{
    lemma_after_matching_sound(book, order);
    assert(book.after_matching(order).index.dom().contains(id));
}

/// An order that the index knows stays known when any order is cancelled.
pub proof fn known_orders_stay_known_after_cancel(book: BookView, cancelled: u64, id: u64)
    requires
        book.index.contains_key(id),
    ensures
        book.after_cancel(cancelled).index.contains_key(id),
{
}

/// A cleanup makes the index forget the order that is cleaned up, where it
/// was cancelled, and no other.
pub proof fn cleanup_forgets_only_that_order(book: BookView, cleaned: u64, id: u64)
    requires
        book.index.contains_key(id),
    ensures
        book.after_cleanup(cleaned).index.contains_key(id) <==> !(id == cleaned && is_cancelled(
            book.index,
            cleaned,
        )),
{
}

/// An order that the index knows moves only forward when an order is
/// accepted: its price stays, no more remains of it than before, it stays
/// as it is once filled or cancelled, and is not open again once partially
/// filled.
pub proof fn orders_move_forward_after_order(book: BookView, order: OrderView)
    requires
        book.wf(),
        book.rejection(order) is None,
    ensures
        index_follows(book.index, book.after_order(order).index),
{
    matching_facts(book, order);
}

/// An order that the index knows moves only forward when an order is
/// cancelled, and only the cancelled order moves.
pub proof fn orders_move_forward_after_cancel(book: BookView, cancelled: u64)
    ensures
        index_follows(book.index, book.after_cancel(cancelled).index),
        forall|id: u64|
            id != cancelled && #[trigger] book.index.contains_key(id) ==> book.after_cancel(
                cancelled,
            ).index[id] == book.index[id],
{
}

/// A cleanup changes nothing of what the index knows of the orders that it
/// still knows.
pub proof fn orders_stay_after_cleanup(book: BookView, cleaned: u64)
    ensures
        forall|id: u64| #[trigger]
            book.after_cleanup(cleaned).index.contains_key(id) ==> book.index.contains_key(id)
                && book.after_cleanup(cleaned).index[id] == book.index[id],
{
}

/// After a successful cancellation, cancelling the same order again is
/// answered with `OrderAlreadyCancelled` and changes nothing.
pub proof fn second_cancel_changes_nothing(book: BookView, id: u64)
    requires
        book.cancel_result(id) is Ok,
    ensures
        book.after_cancel(id).cancel_result(id) == Err::<(), OrderBookError>(
            OrderBookError::OrderAlreadyCancelled(id),
        ),
        book.after_cancel(id).after_cancel(id) == book.after_cancel(id),
        book.after_cancel(id).order_status(id) == Some(OrderStatus::Cancelled),
        book.after_cancel(id).order_remaining(id) == Some(0u64),
{
}

/// An order that matching does not stop at an order of its own user leaves
/// an uncrossed book uncrossed.
pub proof fn order_keeps_book_uncrossed(book: BookView, order: OrderView)
    requires
        book.wf(),
        book.uncrossed(),
        book.rejection(order) is None,
        !book.matched(order).blocked,
    ensures
        book.after_order(order).uncrossed(),
{
    let m = book.matched(order);
    let after = book.after_order(order);
    matching_facts(book, order);
    assert forall|bid: u64, ask: u64|
        #![trigger after.bids.contains_key(bid), after.asks.contains_key(ask)]
        after.bids.contains_key(bid) && after.asks.contains_key(ask) implies bid < ask by {
        match order.side {
            Side::Buy => {
                assert(m.levels.contains_key(ask));
                assert(book.asks.contains_key(ask));
                if book.bids.contains_key(bid) {
                } else {
                    assert(bid == order.price);
                    assert(!crosses(order.side, order.price, ask));
                }
            },
            Side::Sell => {
                assert(m.levels.contains_key(bid));
                assert(book.bids.contains_key(bid));
                if book.asks.contains_key(ask) {
                } else {
                    assert(ask == order.price);
                    assert(!crosses(order.side, order.price, bid));
                }
            },
        }
    }
}

/// An order that matching stops at an order of its own user comes to rest
/// across from a level that its price crosses: the book is crossed after
/// it.
pub proof fn stopped_order_crosses_book(book: BookView, order: OrderView)
    requires
        book.wf(),
        book.rejection(order) is None,
        book.matched(order).blocked,
    ensures
        !book.after_order(order).uncrossed(),
{
    let m = book.matched(order);
    let after = book.after_order(order);
    matching_facts(book, order);
    let q = choose|q: u64| #[trigger] m.levels.contains_key(q) && crosses(
        order.side,
        order.price,
        q,
    );
    match order.side {
        Side::Buy => {
            assert(after.bids.contains_key(order.price));
            assert(after.asks.contains_key(q));
        },
        Side::Sell => {
            assert(after.asks.contains_key(order.price));
            assert(after.bids.contains_key(q));
        },
    }
}

/// A cancellation leaves an uncrossed book uncrossed.
pub proof fn cancel_keeps_book_uncrossed(book: BookView, id: u64)
    requires
        book.uncrossed(),
    ensures
        book.after_cancel(id).uncrossed(),
{
}

/// A cleanup leaves an uncrossed book uncrossed.
pub proof fn cleanup_keeps_book_uncrossed(book: BookView, id: u64)
    requires
        book.uncrossed(),
    ensures
        book.after_cleanup(id).uncrossed(),
{
    let after = book.after_cleanup(id);
    assert forall|bid: u64, ask: u64|
        #![trigger after.bids.contains_key(bid), after.asks.contains_key(ask)]
        after.bids.contains_key(bid) && after.asks.contains_key(ask) implies bid < ask by {
        assert(book.bids.contains_key(bid));
        assert(book.asks.contains_key(ask));
    }
}

/// In an uncrossed book the best bid is below the best ask, where there are
/// both.
pub proof fn best_bid_below_best_ask(book: BookView)
    requires
        book.uncrossed(),
    ensures
        match (book.best_bid(), book.best_ask()) {
            (Some(bid), Some(ask)) => bid < ask,
            _ => true,
        },
        book.best_bid() is Some && book.best_ask() is Some ==> book.spread() is Some,
{
    match (book.best_bid(), book.best_ask()) {
        (Some(bid), Some(ask)) => {
            assert(is_best(book.bids, Side::Sell, bid));
            assert(is_best(book.asks, Side::Buy, ask));
            assert(book.bids.contains_key(bid) && book.asks.contains_key(ask));
        },
        _ => {},
    }
}

/// The orders of a queue that the index does not have as cancelled.
pub open spec fn live_orders(book: BookView, orders: Seq<OrderView>) -> Seq<OrderView> {
    orders.filter(|o: OrderView| !is_cancelled(book.index, o.id))
}

/// The orders of a queue that the index has as cancelled, and that no
/// matching and no cleanup has met since.
pub open spec fn stale_orders(book: BookView, orders: Seq<OrderView>) -> Seq<OrderView> {
    orders.filter(|o: OrderView| is_cancelled(book.index, o.id))
}

/// In a sound book the total of a level is the sum of what remains of the
/// orders in its queue: of those that can still trade, for which the index
/// has the same quantity, and of those cancelled since they came to rest,
/// which count with what they held until matching or a cleanup meets them.
pub proof fn level_total_is_sum(book: BookView, side: Side, price: u64)
    requires
        book.wf(),
        book.own(side).contains_key(price),
    ensures
        ({
            let level = book.own(side)[price];
            &&& level.orders.len() > 0
            &&& level.total_quantity == sum_remaining(level.orders)
            &&& level.total_quantity == sum_remaining(live_orders(book, level.orders))
                + sum_remaining(stale_orders(book, level.orders))
            &&& forall|i: int|
                0 <= i < level.orders.len() && !is_cancelled(
                    book.index,
                    (#[trigger] level.orders[i]).id,
                ) ==> book.order_remaining(level.orders[i].id) == Some(
                    level.orders[i].remaining_quantity,
                ) && level.orders[i].remaining_quantity > 0
        }),
{
    let level = book.own(side)[price];
    assert(level_wf(book.index, book.market_id, book.outcome_id, side, price, level));
    lemma_sum_splits(
        level.orders,
        |o: OrderView| !is_cancelled(book.index, o.id),
        |o: OrderView| is_cancelled(book.index, o.id),
    );
    assert forall|i: int|
        0 <= i < level.orders.len() && !is_cancelled(
            book.index,
            (#[trigger] level.orders[i]).id,
        ) implies book.order_remaining(level.orders[i].id) == Some(
        level.orders[i].remaining_quantity,
    ) && level.orders[i].remaining_quantity > 0 by {
        assert(resident_ok(
            book.index,
            book.market_id,
            book.outcome_id,
            side,
            price,
            level.orders[i],
        ));
    }
}

/// Cancelling an order that has just come to rest, and cleaning it up,
/// gives back the book as it was before the order came to rest.
pub proof fn cancel_and_cleanup_undo_resting(book: BookView, order: OrderView)
    requires
        book.wf(),
        may_rest(book, order),
    ensures
        book.with_resting(order).cancel_result(order.id) is Ok,
        book.with_resting(order).after_cancel(order.id).after_cleanup(order.id) == book,
{
    let id = order.id;
    let price = order.price;
    let rested = book.with_resting(order);
    let cancelled = rested.after_cancel(id);
    let cleaned = cancelled.after_cleanup(id);
    let own = book.own(order.side);
    let across = book.opposite(order.side);
    assert(rested.index[id] == metadata_of(order));
    assert(is_cancelled(cancelled.index, id));
    assert(cancelled.index[id].price == price);
    assert(cleaned.index =~= book.index);
    lemma_sound_is_pair_ok(book, order.side);
    lemma_unknown_is_unlisted(
        book.index,
        book.market_id,
        book.outcome_id,
        order.side,
        own,
        id,
    );
    lemma_unknown_is_unlisted(
        book.index,
        book.market_id,
        book.outcome_id,
        other_side(order.side),
        across,
        id,
    );
    lemma_purge_unlisted(
        book.index,
        book.market_id,
        book.outcome_id,
        other_side(order.side),
        across,
        price,
        id,
    );
    let before = if own.contains_key(price) {
        own[price]
    } else {
        empty_level()
    };
    let level = push_back(before, order);
    let keep = |o: OrderView| o.id != id;
    assert(absent(before.orders, id));
    assert(before.total_quantity == sum_remaining(before.orders)) by {
        if own.contains_key(price) {
            assert(level_wf(
                book.index,
                book.market_id,
                book.outcome_id,
                order.side,
                price,
                own[price],
            ));
        }
    }
    before.orders.lemma_filter_push(order, keep);
    lemma_filter_keeps_all(before.orders, keep);
    assert(without_order(level, id) == before);
    assert(purge(rest(own, order), price, id) =~= own) by {
        if own.contains_key(price) {
            assert(level_wf(
                book.index,
                book.market_id,
                book.outcome_id,
                order.side,
                price,
                own[price],
            ));
        }
    }
    match order.side {
        Side::Buy => {
            assert(cleaned.bids == own);
            assert(cleaned.asks == across);
        },
        Side::Sell => {
            assert(cleaned.asks == own);
            assert(cleaned.bids == across);
        },
    }
}

/// Cancelling an accepted order of which something came to rest, and
/// cleaning it up, gives back the book as its trades left it.
pub proof fn cancel_and_cleanup_undo_order(book: BookView, order: OrderView)
    requires
        book.wf(),
        book.rejection(order) is None,
        book.has_room_for(order),
        book.matched(order).remaining > 0,
    ensures
        book.after_order(order).cancel_result(order.id) is Ok,
        book.after_order(order).after_cancel(order.id).after_cleanup(order.id)
            == book.after_trades(order),
{
    let m = book.matched(order);
    let traded = book.after_trades(order);
    let taker = settled(order, m.remaining);
    lemma_after_matching_sound(book, order);
    assert(traded.wf());
    assert(!traded.index.contains_key(order.id)) by {
        assert(!book.index.dom().contains(order.id));
    }
    assert(may_rest(traded, taker));
    cancel_and_cleanup_undo_resting(traded, taker);
}

} // verus!
