use matching_engine::clock::timestamp_from;
use matching_engine::text::append_decimal;
use matching_engine::{Order, OrderBook, OrderBookError, OrderStatus, Side};

fn order(id: u64, user: &str, side: Side, price: u64, quantity: u64, timestamp: u64) -> Order {
    Order::with_timestamp(
        id,
        user.to_string(),
        "market1".to_string(),
        "YES".to_string(),
        side,
        price,
        quantity,
        timestamp,
    )
}

fn book() -> OrderBook {
    OrderBook::new("market1".to_string(), "YES".to_string())
}

#[test]
fn new_book_is_empty() {
    let book = book();
    assert_eq!(book.market_id, "market1");
    assert_eq!(book.outcome_id, "YES");
    assert_eq!(book.best_bid(), None);
    assert_eq!(book.best_ask(), None);
    assert_eq!(book.spread(), None);
    assert_eq!(book.bid_levels(), 0);
    assert_eq!(book.ask_levels(), 0);
    assert_eq!(book.active_orders(), 0);
    assert_eq!(book.total_trades, 0);
    assert_eq!(book.total_volume, 0);
    assert_eq!(book.bid_quantity_at(5000), 0);
    assert_eq!(book.ask_quantity_at(5000), 0);
    assert_eq!(book.get_order_status(1), None);
    assert_eq!(book.get_order_remaining(1), None);
    let (bids, asks) = book.get_depth(3);
    assert!(bids.is_empty());
    assert!(asks.is_empty());
}

#[test]
fn full_fill_leaves_both_sides_empty() {
    let mut book = book();
    book.process_limit_order(order(1, "seller", Side::Sell, 5000, 100, 1000)).unwrap();
    let result = book.process_limit_order(order(2, "buyer", Side::Buy, 5000, 100, 2000)).unwrap();
    assert_eq!(result.trades.len(), 1);
    let trade = &result.trades[0];
    assert_eq!(trade.id, 1);
    assert_eq!(trade.price, 5000);
    assert_eq!(trade.quantity, 100);
    assert_eq!(trade.maker_order_id, 1);
    assert_eq!(trade.taker_order_id, 2);
    assert_eq!(trade.maker_user_id, "seller");
    assert_eq!(trade.taker_user_id, "buyer");
    assert_eq!(trade.market_id, "market1");
    assert_eq!(trade.outcome_id, "YES");
    assert_eq!(trade.taker_side, Side::Buy);
    assert_eq!(result.order.status, OrderStatus::Filled);
    assert_eq!(result.order.remaining_quantity, 0);
    assert_eq!(book.bid_levels(), 0);
    assert_eq!(book.ask_levels(), 0);
    assert_eq!(book.total_trades, 1);
    assert_eq!(book.total_volume, 100);
    assert_eq!(book.get_order_status(1), Some(OrderStatus::Filled));
    assert_eq!(book.get_order_remaining(1), Some(0));
}

#[test]
fn partial_fill_rests_what_is_left() {
    let mut book = book();
    book.process_limit_order(order(1, "seller", Side::Sell, 5000, 100, 1000)).unwrap();
    let result = book.process_limit_order(order(2, "buyer", Side::Buy, 5000, 150, 2000)).unwrap();
    assert_eq!(result.trades.len(), 1);
    assert_eq!(result.trades[0].quantity, 100);
    assert_eq!(result.order.remaining_quantity, 50);
    assert_eq!(result.order.original_quantity, 150);
    assert_eq!(result.order.status, OrderStatus::PartiallyFilled);
    assert_eq!(book.best_bid(), Some(5000));
    assert_eq!(book.bid_quantity_at(5000), 50);
    assert_eq!(book.ask_levels(), 0);
    assert_eq!(book.best_ask(), None);
    assert_eq!(book.get_order_status(2), Some(OrderStatus::PartiallyFilled));
    assert_eq!(book.get_order_remaining(2), Some(50));
    assert_eq!(book.active_orders(), 1);
}

#[test]
fn sweep_takes_levels_in_price_order() {
    let mut book = book();
    book.process_limit_order(order(1, "s1", Side::Sell, 5000, 100, 1000)).unwrap();
    book.process_limit_order(order(2, "s2", Side::Sell, 5100, 100, 2000)).unwrap();
    book.process_limit_order(order(3, "s3", Side::Sell, 5200, 100, 3000)).unwrap();
    let result = book.process_limit_order(order(4, "b", Side::Buy, 5200, 250, 4000)).unwrap();
    let seen: Vec<(u64, u64, u64, u64)> = result
        .trades
        .iter()
        .map(|t| (t.id, t.price, t.quantity, t.maker_order_id))
        .collect();
    assert_eq!(seen, vec![(1, 5000, 100, 1), (2, 5100, 100, 2), (3, 5200, 50, 3)]);
    assert_eq!(result.order.status, OrderStatus::Filled);
    assert_eq!(book.ask_levels(), 1);
    assert_eq!(book.ask_quantity_at(5200), 50);
    assert_eq!(book.get_order_status(3), Some(OrderStatus::PartiallyFilled));
    assert_eq!(book.get_order_remaining(3), Some(50));
    assert_eq!(book.total_trades, 3);
    assert_eq!(book.total_volume, 250);
}

#[test]
fn seller_takes_highest_bid_first() {
    let mut book = book();
    book.process_limit_order(order(1, "b1", Side::Buy, 5000, 100, 1000)).unwrap();
    book.process_limit_order(order(2, "b2", Side::Buy, 6000, 100, 2000)).unwrap();
    book.process_limit_order(order(3, "b3", Side::Buy, 5500, 100, 3000)).unwrap();
    assert_eq!(book.best_bid(), Some(6000));
    let result = book.process_limit_order(order(4, "s", Side::Sell, 5000, 250, 4000)).unwrap();
    let seen: Vec<(u64, u64, u64)> =
        result.trades.iter().map(|t| (t.price, t.maker_order_id, t.quantity)).collect();
    assert_eq!(seen, vec![(6000, 2, 100), (5500, 3, 100), (5000, 1, 50)]);
    assert_eq!(result.trades[0].taker_side, Side::Sell);
    assert_eq!(book.best_bid(), Some(5000));
    assert_eq!(book.bid_quantity_at(5000), 50);
}

#[test]
fn taker_trades_at_the_maker_price() {
    let mut book = book();
    book.process_limit_order(order(1, "s", Side::Sell, 5000, 100, 1000)).unwrap();
    let result = book.process_limit_order(order(2, "b", Side::Buy, 7000, 40, 2000)).unwrap();
    assert_eq!(result.trades.len(), 1);
    assert_eq!(result.trades[0].price, 5000);
    assert_eq!(result.trades[0].quantity, 40);
    assert_eq!(book.ask_quantity_at(5000), 60);
    assert_eq!(book.get_order_status(1), Some(OrderStatus::PartiallyFilled));
}

#[test]
fn cancelled_order_is_skipped_and_leaves_the_total() {
    let mut book = book();
    book.process_limit_order(order(1, "u1", Side::Sell, 5000, 100, 1000)).unwrap();
    book.process_limit_order(order(2, "u2", Side::Sell, 5000, 100, 2000)).unwrap();
    book.cancel_order(1).unwrap();
    assert_eq!(book.get_order_status(1), Some(OrderStatus::Cancelled));
    assert_eq!(book.get_order_remaining(1), Some(0));
    // the cancelled order counts in the total until matching meets it
    assert_eq!(book.ask_quantity_at(5000), 200);
    assert_eq!(book.active_orders(), 1);
    let result = book.process_limit_order(order(3, "u3", Side::Buy, 5000, 50, 3000)).unwrap();
    assert_eq!(result.trades.len(), 1);
    assert_eq!(result.trades[0].maker_order_id, 2);
    assert_eq!(result.trades[0].quantity, 50);
    assert_eq!(book.get_order_status(1), Some(OrderStatus::Cancelled));
    assert_eq!(book.ask_quantity_at(5000), 50);
}

#[test]
fn level_of_cancelled_orders_alone_goes_when_met() {
    let mut book = book();
    book.process_limit_order(order(1, "u1", Side::Sell, 5000, 100, 1000)).unwrap();
    book.cancel_order(1).unwrap();
    assert_eq!(book.ask_levels(), 1);
    let result = book.process_limit_order(order(2, "u2", Side::Buy, 5000, 50, 2000)).unwrap();
    assert_eq!(result.trades.len(), 0);
    assert_eq!(result.order.status, OrderStatus::Open);
    assert_eq!(book.ask_levels(), 0);
    assert_eq!(book.bid_quantity_at(5000), 50);
}

#[test]
fn own_order_stops_matching_and_the_rest_rests() {
    let mut book = book();
    book.process_limit_order(order(1, "user1", Side::Sell, 5000, 100, 1000)).unwrap();
    let result = book.process_limit_order(order(2, "user1", Side::Buy, 5000, 100, 2000)).unwrap();
    assert_eq!(result.trades.len(), 0);
    assert_eq!(result.order.status, OrderStatus::Open);
    assert_eq!(book.best_bid(), Some(5000));
    assert_eq!(book.best_ask(), Some(5000));
    assert_eq!(book.spread(), None);
    assert_eq!(book.bid_quantity_at(5000), 100);
    assert_eq!(book.ask_quantity_at(5000), 100);
}

#[test]
fn own_order_stops_matching_at_deeper_levels_too() {
    let mut book = book();
    book.process_limit_order(order(1, "user1", Side::Sell, 5000, 100, 1000)).unwrap();
    book.process_limit_order(order(2, "user2", Side::Sell, 5100, 100, 2000)).unwrap();
    let result = book.process_limit_order(order(3, "user1", Side::Buy, 5200, 100, 3000)).unwrap();
    assert_eq!(result.trades.len(), 0);
    assert_eq!(result.order.remaining_quantity, 100);
    assert_eq!(book.ask_quantity_at(5100), 100);
    assert_eq!(book.bid_quantity_at(5200), 100);
}

#[test]
fn own_order_behind_others_stops_matching_there() {
    let mut book = book();
    book.process_limit_order(order(1, "other", Side::Sell, 5000, 30, 1000)).unwrap();
    book.process_limit_order(order(2, "me", Side::Sell, 5000, 30, 2000)).unwrap();
    book.process_limit_order(order(3, "third", Side::Sell, 5000, 30, 3000)).unwrap();
    let result = book.process_limit_order(order(4, "me", Side::Buy, 5000, 90, 4000)).unwrap();
    assert_eq!(result.trades.len(), 1);
    assert_eq!(result.trades[0].maker_order_id, 1);
    assert_eq!(result.order.remaining_quantity, 60);
    assert_eq!(result.order.status, OrderStatus::PartiallyFilled);
    assert_eq!(book.ask_quantity_at(5000), 60);
    assert_eq!(book.bid_quantity_at(5000), 60);
}

#[test]
fn cancelled_own_order_does_not_stop_matching() {
    let mut book = book();
    book.process_limit_order(order(1, "me", Side::Sell, 5000, 30, 1000)).unwrap();
    book.process_limit_order(order(2, "other", Side::Sell, 5000, 30, 2000)).unwrap();
    book.cancel_order(1).unwrap();
    let result = book.process_limit_order(order(3, "me", Side::Buy, 5000, 30, 3000)).unwrap();
    assert_eq!(result.trades.len(), 1);
    assert_eq!(result.trades[0].maker_order_id, 2);
    assert_eq!(book.ask_levels(), 0);
}

#[test]
fn trade_identifiers_run_on_from_one() {
    let mut book = book();
    book.process_limit_order(order(1, "s1", Side::Sell, 5000, 10, 1000)).unwrap();
    book.process_limit_order(order(2, "s2", Side::Sell, 5000, 10, 2000)).unwrap();
    let first = book.process_limit_order(order(3, "b1", Side::Buy, 5000, 20, 3000)).unwrap();
    book.process_limit_order(order(4, "s3", Side::Sell, 5000, 10, 4000)).unwrap();
    let second = book.process_limit_order(order(5, "b2", Side::Buy, 5000, 10, 5000)).unwrap();
    let ids: Vec<u64> = first.trades.iter().chain(second.trades.iter()).map(|t| t.id).collect();
    assert_eq!(ids, vec![1, 2, 3]);
    assert_eq!(book.total_trades, 3);
    assert_eq!(book.total_volume, 30);
}

#[test]
fn refusals_come_in_order_and_change_nothing() {
    let mut book = book();
    book.process_limit_order(order(1, "u1", Side::Sell, 5000, 100, 1000)).unwrap();

    let mut both = order(2, "u2", Side::Buy, 0, 0, 2000);
    both.market_id = "market2".to_string();
    assert_eq!(book.process_limit_order(both).unwrap_err(), OrderBookError::InvalidPrice);

    let mut empty = order(1, "u2", Side::Buy, 5000, 0, 2000);
    empty.market_id = "market2".to_string();
    assert_eq!(book.process_limit_order(empty).unwrap_err(), OrderBookError::InvalidQuantity);

    let mut elsewhere = order(1, "u2", Side::Buy, 5000, 10, 2000);
    elsewhere.outcome_id = "NO".to_string();
    assert_eq!(book.process_limit_order(elsewhere).unwrap_err(), OrderBookError::MarketMismatch);

    let again = order(1, "u2", Side::Buy, 5000, 10, 2000);
    assert_eq!(
        book.process_limit_order(again).unwrap_err(),
        OrderBookError::DuplicateOrderId(1)
    );

    assert_eq!(book.ask_quantity_at(5000), 100);
    assert_eq!(book.bid_levels(), 0);
    assert_eq!(book.total_trades, 0);
    assert_eq!(book.active_orders(), 1);
}

#[test]
fn quantity_that_counts_is_what_remains() {
    let mut book = book();
    let mut part = order(1, "u1", Side::Sell, 5000, 100, 1000);
    part.remaining_quantity = 40;
    let result = book.process_limit_order(part).unwrap();
    assert_eq!(result.order.status, OrderStatus::PartiallyFilled);
    assert_eq!(book.ask_quantity_at(5000), 40);
}

#[test]
fn identifier_stays_taken_after_fill_and_after_cancel() {
    let mut book = book();
    book.process_limit_order(order(1, "s", Side::Sell, 5000, 100, 1000)).unwrap();
    book.process_limit_order(order(2, "b", Side::Buy, 5000, 100, 2000)).unwrap();
    assert_eq!(
        book.process_limit_order(order(1, "x", Side::Sell, 5000, 1, 3000)).unwrap_err(),
        OrderBookError::DuplicateOrderId(1)
    );
    book.process_limit_order(order(3, "s", Side::Sell, 6000, 100, 4000)).unwrap();
    book.cancel_order(3).unwrap();
    assert_eq!(
        book.process_limit_order(order(3, "x", Side::Sell, 6000, 1, 5000)).unwrap_err(),
        OrderBookError::DuplicateOrderId(3)
    );
}

#[test]
fn taker_filled_on_arrival_is_in_the_index() {
    let mut book = book();
    book.process_limit_order(order(1, "seller", Side::Sell, 5000, 100, 1000)).unwrap();
    book.process_limit_order(order(2, "buyer", Side::Buy, 5000, 100, 2000)).unwrap();
    assert_eq!(book.get_order_status(1), Some(OrderStatus::Filled));
    assert_eq!(book.get_order_status(2), Some(OrderStatus::Filled));
    assert_eq!(book.get_order_remaining(2), Some(0));
    assert_eq!(book.get_order_status(3), None);
    assert_eq!(book.cancel_order(2), Err(OrderBookError::OrderAlreadyFilled(2)));
    assert_eq!(book.active_orders(), 0);
    let again = book.process_limit_order(order(2, "other", Side::Buy, 4000, 10, 3000));
    assert_eq!(again.unwrap_err(), OrderBookError::DuplicateOrderId(2));
    assert_eq!(book.bid_levels(), 0);
    // a cleanup of a filled order changes nothing
    assert_eq!(book.cleanup_cancelled_order(2), Ok(()));
    assert_eq!(book.get_order_status(2), Some(OrderStatus::Filled));
}

#[test]
fn cancel_answers_by_status() {
    let mut book = book();
    assert_eq!(book.cancel_order(9), Err(OrderBookError::OrderNotFound(9)));
    book.process_limit_order(order(1, "s", Side::Sell, 5000, 100, 1000)).unwrap();
    book.process_limit_order(order(2, "b", Side::Buy, 5000, 40, 2000)).unwrap();
    // partially filled orders can be cancelled
    assert_eq!(book.cancel_order(1), Ok(()));
    assert_eq!(book.cancel_order(1), Err(OrderBookError::OrderAlreadyCancelled(1)));
    assert_eq!(book.get_order_status(1), Some(OrderStatus::Cancelled));
    assert_eq!(book.get_order_remaining(1), Some(0));
    book.process_limit_order(order(3, "s", Side::Sell, 6000, 10, 3000)).unwrap();
    book.process_limit_order(order(4, "b", Side::Buy, 6000, 10, 4000)).unwrap();
    assert_eq!(book.cancel_order(3), Err(OrderBookError::OrderAlreadyFilled(3)));
    assert_eq!(book.get_order_status(3), Some(OrderStatus::Filled));
}

#[test]
fn cleanup_takes_the_order_out_and_sums_the_level_anew() {
    let mut book = book();
    book.process_limit_order(order(1, "u1", Side::Sell, 5000, 100, 1000)).unwrap();
    book.process_limit_order(order(2, "u2", Side::Sell, 5000, 70, 2000)).unwrap();
    book.process_limit_order(order(3, "u3", Side::Sell, 5000, 30, 3000)).unwrap();
    book.cancel_order(2).unwrap();
    assert_eq!(book.ask_quantity_at(5000), 200);
    assert_eq!(book.cleanup_cancelled_order(2), Ok(()));
    assert_eq!(book.ask_quantity_at(5000), 130);
    assert_eq!(book.ask_levels(), 1);
    assert_eq!(book.get_order_status(2), None);
    let result = book.process_limit_order(order(4, "b", Side::Buy, 5000, 130, 4000)).unwrap();
    let makers: Vec<u64> = result.trades.iter().map(|t| t.maker_order_id).collect();
    assert_eq!(makers, vec![1, 3]);
}

#[test]
fn cleanup_of_other_orders_changes_nothing() {
    let mut book = book();
    assert_eq!(book.cleanup_cancelled_order(5), Err(OrderBookError::OrderNotFound(5)));
    book.process_limit_order(order(1, "u1", Side::Buy, 5000, 100, 1000)).unwrap();
    assert_eq!(book.cleanup_cancelled_order(1), Ok(()));
    assert_eq!(book.get_order_status(1), Some(OrderStatus::Open));
    assert_eq!(book.bid_quantity_at(5000), 100);
    assert_eq!(book.bid_levels(), 1);
}

#[test]
fn cleanup_finds_the_order_on_its_own_side() {
    let mut book = book();
    book.process_limit_order(order(1, "me", Side::Sell, 5000, 100, 1000)).unwrap();
    book.process_limit_order(order(2, "me", Side::Buy, 5000, 60, 2000)).unwrap();
    book.cancel_order(1).unwrap();
    book.cleanup_cancelled_order(1).unwrap();
    assert_eq!(book.ask_levels(), 0);
    assert_eq!(book.bid_quantity_at(5000), 60);
    assert_eq!(book.get_order_status(1), None);
    assert_eq!(book.get_order_status(2), Some(OrderStatus::Open));
}

#[test]
fn cancel_and_cleanup_undo_a_resting_order() {
    let mut book = book();
    book.process_limit_order(order(1, "u1", Side::Buy, 4000, 10, 1000)).unwrap();
    book.process_limit_order(order(2, "u2", Side::Sell, 5000, 100, 2000)).unwrap();
    let before = (book.get_depth(10), book.active_orders(), book.total_trades, book.total_volume);
    book.process_limit_order(order(3, "u3", Side::Sell, 5000, 25, 3000)).unwrap();
    book.process_limit_order(order(4, "u4", Side::Buy, 4500, 5, 4000)).unwrap();
    book.cancel_order(3).unwrap();
    book.cleanup_cancelled_order(3).unwrap();
    book.cancel_order(4).unwrap();
    book.cleanup_cancelled_order(4).unwrap();
    let after = (book.get_depth(10), book.active_orders(), book.total_trades, book.total_volume);
    assert_eq!(before, after);
    assert_eq!(book.get_order_status(3), None);
    // the identifier is free again
    book.process_limit_order(order(3, "u3", Side::Sell, 5000, 25, 5000)).unwrap();
    assert_eq!(book.ask_quantity_at(5000), 125);
}

#[test]
fn depth_lists_the_best_levels_first() {
    let mut book = book();
    for (id, price, quantity) in [(1, 5000, 100), (2, 5200, 150), (3, 5100, 200), (4, 5100, 1)] {
        book.process_limit_order(order(id, "b", Side::Buy, price, quantity, id)).unwrap();
    }
    for (id, price, quantity) in [(5, 5600, 200), (6, 5500, 100), (7, 5700, 5)] {
        book.process_limit_order(order(id, "s", Side::Sell, price, quantity, id)).unwrap();
    }
    let (bids, asks) = book.get_depth(2);
    assert_eq!(bids, vec![(5200, 150), (5100, 201)]);
    assert_eq!(asks, vec![(5500, 100), (5600, 200)]);
    let (bids, asks) = book.get_depth(0);
    assert!(bids.is_empty() && asks.is_empty());
    let (bids, asks) = book.get_depth(10);
    assert_eq!(bids, vec![(5200, 150), (5100, 201), (5000, 100)]);
    assert_eq!(asks, vec![(5500, 100), (5600, 200), (5700, 5)]);
    assert_eq!(book.spread(), Some(300));
    assert!(book.best_bid().unwrap() < book.best_ask().unwrap());
}

#[test]
fn active_orders_counts_open_and_partially_filled() {
    let mut book = book();
    book.process_limit_order(order(1, "s1", Side::Sell, 5000, 100, 1000)).unwrap();
    book.process_limit_order(order(2, "s2", Side::Sell, 5100, 100, 2000)).unwrap();
    book.process_limit_order(order(3, "s3", Side::Sell, 5200, 100, 3000)).unwrap();
    book.process_limit_order(order(4, "b", Side::Buy, 5100, 150, 4000)).unwrap();
    book.cancel_order(3).unwrap();
    // 1 is filled, 2 partially filled, 3 cancelled, 4 filled on arrival
    assert_eq!(book.active_orders(), 1);
    assert_eq!(book.get_order_status(4), Some(OrderStatus::Filled));
    assert_eq!(book.get_order_status(1), Some(OrderStatus::Filled));
    assert_eq!(book.get_order_status(2), Some(OrderStatus::PartiallyFilled));
}

#[test]
fn level_total_is_the_sum_of_what_remains() {
    let mut book = book();
    book.process_limit_order(order(1, "s1", Side::Sell, 5000, 100, 1000)).unwrap();
    book.process_limit_order(order(2, "s2", Side::Sell, 5000, 60, 2000)).unwrap();
    book.process_limit_order(order(3, "b", Side::Buy, 5000, 130, 3000)).unwrap();
    let remaining = book.get_order_remaining(2).unwrap();
    assert_eq!(remaining, 30);
    assert_eq!(book.ask_quantity_at(5000), remaining);
}

#[test]
fn orders_that_could_trade() {
    let buy = order(1, "b", Side::Buy, 5000, 10, 1);
    let sell = order(2, "s", Side::Sell, 5000, 10, 2);
    assert!(buy.can_match(&sell));
    assert!(sell.can_match(&buy));
    assert!(!buy.can_match(&order(3, "b2", Side::Buy, 5000, 10, 3)));
    assert!(!buy.can_match(&order(4, "b", Side::Sell, 5000, 10, 4)));
    assert!(!buy.can_match(&order(5, "s", Side::Sell, 5001, 10, 5)));
    assert!(!sell.can_match(&order(6, "b", Side::Buy, 4999, 10, 6)));
    assert!(sell.can_match(&order(7, "b", Side::Buy, 5001, 10, 7)));
    let mut elsewhere = order(8, "s", Side::Sell, 5000, 10, 8);
    elsewhere.market_id = "market2".to_string();
    assert!(!buy.can_match(&elsewhere));
    let mut other_outcome = order(9, "s", Side::Sell, 5000, 10, 9);
    other_outcome.outcome_id = "NO".to_string();
    assert!(!buy.can_match(&other_outcome));
}

#[test]
fn new_order_is_open_and_stamped_by_the_clock() {
    let made = Order::new(
        7,
        "u".to_string(),
        "market1".to_string(),
        "YES".to_string(),
        Side::Buy,
        6500,
        40,
    );
    assert_eq!(made.id, 7);
    assert_eq!(made.user_id, "u");
    assert_eq!(made.side, Side::Buy);
    assert_eq!(made.price, 6500);
    assert_eq!(made.original_quantity, 40);
    assert_eq!(made.remaining_quantity, 40);
    assert_eq!(made.status, OrderStatus::Open);
    // microseconds since 1970, and later than the year 2020
    assert!(made.timestamp > 1_577_836_800_000_000);
    let copy = made.clone();
    assert_eq!(copy.timestamp, made.timestamp);
    assert_eq!(copy.user_id, made.user_id);
}

#[test]
fn trades_carry_the_time_of_the_clock() {
    let mut book = book();
    book.process_limit_order(order(1, "s", Side::Sell, 5000, 100, 1000)).unwrap();
    let result = book.process_limit_order(order(2, "b", Side::Buy, 5000, 100, 2000)).unwrap();
    assert!(result.trades[0].timestamp > 1_577_836_800_000_000);
}

#[test]
fn room_is_told_before_the_order() {
    let mut book = book();
    let fine = order(1, "s", Side::Sell, 5000, 100, 1000);
    assert!(book.has_room_for(&fine));
    book.process_limit_order(fine).unwrap();
    let huge = order(2, "s", Side::Sell, 5000, u64::MAX - 50, 2000);
    assert!(!book.has_room_for(&huge));
    let large = order(3, "s", Side::Sell, 5000, u64::MAX - 101, 3000);
    assert!(book.has_room_for(&large));
}

#[test]
fn new_book_has_room_for_the_largest_order() {
    let mut book = book();
    let largest = order(1, "s", Side::Sell, 5000, u64::MAX, 1000);
    assert!(book.has_room_for(&largest));
    let result = book.process_limit_order(largest).unwrap();
    assert_eq!(result.trades.len(), 0);
    assert_eq!(book.ask_quantity_at(5000), u64::MAX);
    let taker = order(2, "b", Side::Buy, 5000, u64::MAX, 2000);
    assert!(book.has_room_for(&taker));
    let result = book.process_limit_order(taker).unwrap();
    assert_eq!(result.trades.len(), 1);
    assert_eq!(result.trades[0].quantity, u64::MAX);
    assert_eq!(book.total_volume, u64::MAX);
    // an order that meets nothing rests whatever the volume is
    let resting = order(3, "s", Side::Sell, 5000, 1, 3000);
    assert!(book.has_room_for(&resting));
    book.process_limit_order(resting).unwrap();
    // the volume has no room for another unit
    assert!(!book.has_room_for(&order(4, "b", Side::Buy, 5000, 1, 4000)));
}

#[test]
fn statuses_only_move_forward() {
    let mut book = book();
    book.process_limit_order(order(1, "s1", Side::Sell, 5000, 10, 1000)).unwrap();
    book.process_limit_order(order(2, "s2", Side::Sell, 5000, 10, 2000)).unwrap();
    book.process_limit_order(order(3, "b1", Side::Buy, 5000, 10, 3000)).unwrap();
    book.cancel_order(2).unwrap();
    for id in 4..10 {
        book.process_limit_order(order(id, "b2", Side::Buy, 5000, 5, id)).unwrap();
        assert_eq!(book.get_order_status(1), Some(OrderStatus::Filled));
        assert_eq!(book.get_order_remaining(1), Some(0));
        assert_eq!(book.get_order_status(2), Some(OrderStatus::Cancelled));
        assert_eq!(book.get_order_remaining(2), Some(0));
    }
    assert_eq!(book.total_trades, 1);
}

#[test]
fn book_stays_sound_over_a_long_run() {
    let mut book = book();
    let mut seed: u64 = 0x2545_F491_4F6C_DD1D;
    let mut next = move || {
        seed ^= seed << 13;
        seed ^= seed >> 7;
        seed ^= seed << 17;
        seed
    };
    let mut resting: Vec<(u64, Side, u64)> = Vec::new();
    let mut expected_trade_id = 1;
    let mut volume = 0;
    for id in 1..=400u64 {
        let side = if next() % 2 == 0 { Side::Buy } else { Side::Sell };
        let price = 4990 + next() % 20;
        let quantity = 1 + next() % 50;
        let user = format!("user{}", id);
        let result = book.process_limit_order(order(id, &user, side, price, quantity, id)).unwrap();

        let mut traded = 0;
        for trade in &result.trades {
            assert_eq!(trade.id, expected_trade_id);
            expected_trade_id += 1;
            assert!(trade.quantity > 0);
            assert_ne!(trade.taker_user_id, trade.maker_user_id);
            assert_eq!(trade.taker_order_id, id);
            assert_eq!(trade.taker_side, side);
            assert_eq!(trade.market_id, "market1");
            assert_eq!(trade.outcome_id, "YES");
            let (_, maker_side, maker_price) =
                *resting.iter().find(|(maker, _, _)| *maker == trade.maker_order_id).unwrap();
            assert_ne!(maker_side, side);
            assert_eq!(trade.price, maker_price);
            match side {
                Side::Buy => assert!(trade.price <= price),
                Side::Sell => assert!(trade.price >= price),
            }
            traded += trade.quantity;
        }
        volume += traded;
        assert_eq!(result.order.remaining_quantity, quantity - traded);
        assert_eq!(book.total_volume, volume);
        assert_eq!(book.total_trades, expected_trade_id - 1);
        if result.order.remaining_quantity > 0 {
            resting.push((id, side, price));
            assert_eq!(book.get_order_remaining(id), Some(quantity - traded));
            assert_eq!(book.get_order_status(id), Some(result.order.status));
        } else {
            assert_eq!(result.order.status, OrderStatus::Filled);
            assert_eq!(book.get_order_status(id), Some(OrderStatus::Filled));
            assert_eq!(book.get_order_remaining(id), Some(0));
        }

        // every seventh step an order that still rests is withdrawn for good
        if id % 7 == 0 {
            let pick = resting[(next() % resting.len() as u64) as usize].0;
            if book.cancel_order(pick).is_ok() {
                assert_eq!(book.cancel_order(pick), Err(OrderBookError::OrderAlreadyCancelled(pick)));
                book.cleanup_cancelled_order(pick).unwrap();
                assert_eq!(book.get_order_status(pick), None);
            }
        }

        if let (Some(bid), Some(ask)) = (book.best_bid(), book.best_ask()) {
            assert!(bid < ask);
            assert_eq!(book.spread(), Some(ask - bid));
        }
        let (bids, asks) = book.get_depth(usize::MAX);
        assert_eq!(bids.len(), book.bid_levels());
        assert_eq!(asks.len(), book.ask_levels());
        assert!(bids.windows(2).all(|pair| pair[0].0 > pair[1].0));
        assert!(asks.windows(2).all(|pair| pair[0].0 < pair[1].0));
        let mut active = 0;
        for (rows, row_side) in [(&bids, Side::Buy), (&asks, Side::Sell)] {
            for (level_price, total) in rows.iter() {
                let mut sum = 0;
                for (maker, maker_side, maker_price) in &resting {
                    let live = matches!(
                        book.get_order_status(*maker),
                        Some(OrderStatus::Open) | Some(OrderStatus::PartiallyFilled)
                    );
                    if live && *maker_side == row_side && maker_price == level_price {
                        sum += book.get_order_remaining(*maker).unwrap();
                        active += 1;
                    }
                }
                assert!(*total > 0);
                assert_eq!(*total, sum);
            }
        }
        assert_eq!(book.active_orders(), active);
    }
    assert!(book.total_trades > 100);
}

#[test]
fn timestamp_is_the_low_64_bits_of_the_microseconds() {
    assert_eq!(timestamp_from(None), 0);
    assert_eq!(timestamp_from(Some(0)), 0);
    assert_eq!(timestamp_from(Some(1_700_000_000_000_000)), 1_700_000_000_000_000);
    assert_eq!(timestamp_from(Some(u64::MAX as u128)), u64::MAX);
    assert_eq!(timestamp_from(Some((1u128 << 64) + 7)), 7);
    assert_eq!(timestamp_from(Some(u128::MAX)), u64::MAX);
}

#[test]
fn every_accepted_order_is_known_afterwards() {
    let mut book = book();
    book.process_limit_order(order(1, "s1", Side::Sell, 5000, 30, 1000)).unwrap();
    book.process_limit_order(order(2, "s2", Side::Sell, 5100, 30, 2000)).unwrap();
    let swept = book.process_limit_order(order(3, "b", Side::Buy, 5100, 60, 3000)).unwrap();
    assert_eq!(swept.order.status, OrderStatus::Filled);
    let rests = book.process_limit_order(order(4, "b", Side::Buy, 5000, 5, 4000)).unwrap();
    assert_eq!(rests.order.status, OrderStatus::Open);
    for (id, status, remaining) in [
        (1, OrderStatus::Filled, 0),
        (2, OrderStatus::Filled, 0),
        (3, OrderStatus::Filled, 0),
        (4, OrderStatus::Open, 5),
    ] {
        assert_eq!(book.get_order_status(id), Some(status));
        assert_eq!(book.get_order_remaining(id), Some(remaining));
        assert_eq!(
            book.process_limit_order(order(id, "x", Side::Sell, 9000, 1, 5000)).unwrap_err(),
            OrderBookError::DuplicateOrderId(id)
        );
    }
}

#[test]
fn statistics_and_names_read_as_the_fields_do() {
    let mut book = book();
    book.process_limit_order(order(1, "s", Side::Sell, 5000, 100, 1000)).unwrap();
    book.process_limit_order(order(2, "b", Side::Buy, 5000, 40, 2000)).unwrap();
    assert_eq!(book.market_id(), "market1");
    assert_eq!(book.outcome_id(), "YES");
    assert_eq!(book.total_trades(), 1);
    assert_eq!(book.total_volume(), 40);
    assert_eq!(book.total_trades(), book.total_trades);
    assert_eq!(book.total_volume(), book.total_volume);
}

#[test]
fn sides_and_errors_in_words() {
    assert_eq!(Side::Buy.to_text(), "BUY");
    assert_eq!(Side::Sell.to_text(), "SELL");
    assert_eq!(OrderBookError::DuplicateOrderId(0).to_text(), "Duplicate order ID: 0");
    assert_eq!(OrderBookError::DuplicateOrderId(7).to_text(), "Duplicate order ID: 7");
    assert_eq!(OrderBookError::OrderNotFound(999).to_text(), "Order not found: 999");
    assert_eq!(
        OrderBookError::OrderAlreadyCancelled(1_000_000).to_text(),
        "Order already cancelled: 1000000"
    );
    assert_eq!(
        OrderBookError::OrderAlreadyFilled(u64::MAX).to_text(),
        "Order already filled: 18446744073709551615"
    );
    assert_eq!(OrderBookError::InvalidPrice.to_text(), "Invalid price (must be > 0)");
    assert_eq!(OrderBookError::InvalidQuantity.to_text(), "Invalid quantity (must be > 0)");
    assert_eq!(OrderBookError::MarketMismatch.to_text(), "Market or outcome mismatch");
}

#[test]
fn numbers_in_decimal_digits() {
    for n in [0u64, 9, 10, 11, 99, 100, 101, 1234567890, u64::MAX - 1, u64::MAX] {
        let mut text = "n=".to_string();
        append_decimal(&mut text, n);
        assert_eq!(text, format!("n={}", n));
    }
}
