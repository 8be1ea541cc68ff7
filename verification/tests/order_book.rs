use matching_engine::{
    Order, OrderBook, OrderBookError, OrderId, OrderStatus, Price, Quantity, Side, Timestamp,
};

fn create_test_order(
    id: OrderId,
    user_id: &str,
    side: Side,
    price: Price,
    quantity: Quantity,
    timestamp: Timestamp,
) -> Order {
    Order::with_timestamp(
        id,
        user_id.to_string(),
        "market1".to_string(),
        "YES".to_string(),
        side,
        price,
        quantity,
        timestamp,
    )
}

#[test]
fn test_liquidity_addition() {
    let mut book = OrderBook::new("market1".to_string(), "YES".to_string());

    // Add multiple buy orders at different prices
    let order1 = create_test_order(1, "user1", Side::Buy, 5000, 100, 1000);
    let order2 = create_test_order(2, "user2", Side::Buy, 5500, 200, 2000);
    let order3 = create_test_order(3, "user3", Side::Buy, 5000, 150, 3000);

    book.process_limit_order(order1).unwrap();
    book.process_limit_order(order2).unwrap();
    book.process_limit_order(order3).unwrap();

    // Verify book depth
    assert_eq!(book.bid_levels(), 2);
    assert_eq!(book.bid_quantity_at(5000), 250); // 100 + 150
    assert_eq!(book.bid_quantity_at(5500), 200);
    assert_eq!(book.best_bid(), Some(5500));

    // Add sell orders
    let order4 = create_test_order(4, "user4", Side::Sell, 6000, 100, 4000);
    let order5 = create_test_order(5, "user5", Side::Sell, 6500, 200, 5000);

    book.process_limit_order(order4).unwrap();
    book.process_limit_order(order5).unwrap();

    assert_eq!(book.ask_levels(), 2);
    assert_eq!(book.best_ask(), Some(6000));
    assert_eq!(book.spread(), Some(500)); // 6000 - 5500
    assert_eq!(book.active_orders(), 5);
}

#[test]
fn test_full_fill() {
    let mut book = OrderBook::new("market1".to_string(), "YES".to_string());

    // Add a sell order
    let sell_order = create_test_order(1, "seller", Side::Sell, 5000, 100, 1000);
    book.process_limit_order(sell_order).unwrap();

    // Add a matching buy order
    let buy_order = create_test_order(2, "buyer", Side::Buy, 5000, 100, 2000);
    let result = book.process_limit_order(buy_order).unwrap();

    // Verify trade
    assert_eq!(result.trades.len(), 1);
    assert_eq!(result.trades[0].quantity, 100);
    assert_eq!(result.trades[0].price, 5000);
    assert_eq!(result.order.status, OrderStatus::Filled);

    // Verify book is empty
    assert_eq!(book.bid_levels(), 0);
    assert_eq!(book.ask_levels(), 0);
    assert_eq!(book.active_orders(), 0);
}

#[test]
fn test_partial_fill() {
    let mut book = OrderBook::new("market1".to_string(), "YES".to_string());

    // Add a sell order
    let sell_order = create_test_order(1, "seller", Side::Sell, 5000, 100, 1000);
    book.process_limit_order(sell_order).unwrap();

    // Add a larger buy order
    let buy_order = create_test_order(2, "buyer", Side::Buy, 5000, 150, 2000);
    let result = book.process_limit_order(buy_order).unwrap();

    // Verify partial fill
    assert_eq!(result.trades.len(), 1);
    assert_eq!(result.trades[0].quantity, 100);
    assert_eq!(result.order.remaining_quantity, 50);
    assert_eq!(result.order.status, OrderStatus::PartiallyFilled);

    // Verify remaining order on book
    assert_eq!(book.bid_levels(), 1);
    assert_eq!(book.bid_quantity_at(5000), 50);
    assert_eq!(book.ask_levels(), 0);
}

#[test]
fn test_multi_level_match() {
    let mut book = OrderBook::new("market1".to_string(), "YES".to_string());

    // Add multiple sell orders at different prices
    let sell1 = create_test_order(1, "seller1", Side::Sell, 5000, 100, 1000);
    let sell2 = create_test_order(2, "seller2", Side::Sell, 5100, 100, 2000);
    let sell3 = create_test_order(3, "seller3", Side::Sell, 5200, 100, 3000);

    book.process_limit_order(sell1).unwrap();
    book.process_limit_order(sell2).unwrap();
    book.process_limit_order(sell3).unwrap();

    assert_eq!(book.ask_levels(), 3);

    // Add a large buy order that consumes multiple levels
    let buy_order = create_test_order(4, "buyer", Side::Buy, 5200, 250, 4000);
    let result = book.process_limit_order(buy_order).unwrap();

    // Verify all trades
    assert_eq!(result.trades.len(), 3);

    // First trade at lowest price
    assert_eq!(result.trades[0].price, 5000);
    assert_eq!(result.trades[0].quantity, 100);

    // Second trade at middle price
    assert_eq!(result.trades[1].price, 5100);
    assert_eq!(result.trades[1].quantity, 100);

    // Third trade at highest price (partial)
    assert_eq!(result.trades[2].price, 5200);
    assert_eq!(result.trades[2].quantity, 50);

    // Verify remaining state
    assert_eq!(result.order.status, OrderStatus::Filled);
    assert_eq!(book.ask_levels(), 1);
    assert_eq!(book.ask_quantity_at(5200), 50);
}

#[test]
fn test_price_time_priority() {
    let mut book = OrderBook::new("market1".to_string(), "YES".to_string());

    // Add two sell orders at the same price (earlier order should match first)
    let sell1 = create_test_order(1, "seller1", Side::Sell, 5000, 100, 1000);
    let sell2 = create_test_order(2, "seller2", Side::Sell, 5000, 100, 2000);

    book.process_limit_order(sell1).unwrap();
    book.process_limit_order(sell2).unwrap();

    // Add a buy order that partially fills
    let buy_order = create_test_order(3, "buyer", Side::Buy, 5000, 150, 3000);
    let result = book.process_limit_order(buy_order).unwrap();

    // Verify FIFO: first trade should be with seller1
    assert_eq!(result.trades.len(), 2);
    assert_eq!(result.trades[0].maker_order_id, 1);
    assert_eq!(result.trades[0].quantity, 100);

    // Second trade with seller2 (partial)
    assert_eq!(result.trades[1].maker_order_id, 2);
    assert_eq!(result.trades[1].quantity, 50);

    // Verify seller1 is fully filled, seller2 has remainder
    assert_eq!(book.get_order_status(1), Some(OrderStatus::Filled));
    assert_eq!(book.get_order_status(2), Some(OrderStatus::PartiallyFilled));
    assert_eq!(book.get_order_remaining(2), Some(50));
}

#[test]
fn test_price_priority() {
    let mut book = OrderBook::new("market1".to_string(), "YES".to_string());

    // Add sell orders at different prices
    let sell_high = create_test_order(1, "seller1", Side::Sell, 6000, 100, 1000);
    let sell_low = create_test_order(2, "seller2", Side::Sell, 5000, 100, 2000);

    book.process_limit_order(sell_high).unwrap();
    book.process_limit_order(sell_low).unwrap();

    // Buy order should match with lower price first
    let buy_order = create_test_order(3, "buyer", Side::Buy, 6000, 150, 3000);
    let result = book.process_limit_order(buy_order).unwrap();

    // Verify price priority: lower ask matches first
    assert_eq!(result.trades.len(), 2);
    assert_eq!(result.trades[0].price, 5000);
    assert_eq!(result.trades[0].maker_order_id, 2);
    assert_eq!(result.trades[1].price, 6000);
    assert_eq!(result.trades[1].maker_order_id, 1);
}

#[test]
fn test_cancellation() {
    let mut book = OrderBook::new("market1".to_string(), "YES".to_string());

    // Add orders
    let order1 = create_test_order(1, "user1", Side::Sell, 5000, 100, 1000);
    let order2 = create_test_order(2, "user2", Side::Sell, 5000, 100, 2000);

    book.process_limit_order(order1).unwrap();
    book.process_limit_order(order2).unwrap();

    assert_eq!(book.ask_quantity_at(5000), 200);

    // Cancel first order
    book.cancel_order(1).unwrap();
    assert_eq!(book.get_order_status(1), Some(OrderStatus::Cancelled));

    // Verify the cancelled order is skipped during matching
    let buy_order = create_test_order(3, "buyer", Side::Buy, 5000, 50, 3000);
    let result = book.process_limit_order(buy_order).unwrap();

    // Should match with order 2, not the cancelled order 1
    assert_eq!(result.trades.len(), 1);
    assert_eq!(result.trades[0].maker_order_id, 2);
}

#[test]
fn test_cancellation_cleanup() {
    let mut book = OrderBook::new("market1".to_string(), "YES".to_string());

    // Add a single order
    let order = create_test_order(1, "user1", Side::Sell, 5000, 100, 1000);
    book.process_limit_order(order).unwrap();

    assert_eq!(book.ask_levels(), 1);

    // Cancel and cleanup
    book.cancel_order(1).unwrap();
    book.cleanup_cancelled_order(1).unwrap();

    // Verify empty price level is removed
    assert_eq!(book.ask_levels(), 0);
}

#[test]
fn test_cancel_nonexistent_order() {
    let mut book = OrderBook::new("market1".to_string(), "YES".to_string());

    let result = book.cancel_order(999);
    assert_eq!(result, Err(OrderBookError::OrderNotFound(999)));
}

#[test]
fn test_cancel_already_cancelled() {
    let mut book = OrderBook::new("market1".to_string(), "YES".to_string());

    let order = create_test_order(1, "user1", Side::Sell, 5000, 100, 1000);
    book.process_limit_order(order).unwrap();
    book.cancel_order(1).unwrap();

    let result = book.cancel_order(1);
    assert_eq!(result, Err(OrderBookError::OrderAlreadyCancelled(1)));
}

#[test]
fn test_cancel_filled_order() {
    let mut book = OrderBook::new("market1".to_string(), "YES".to_string());

    // Add and fill an order
    let sell_order = create_test_order(1, "seller", Side::Sell, 5000, 100, 1000);
    book.process_limit_order(sell_order).unwrap();

    let buy_order = create_test_order(2, "buyer", Side::Buy, 5000, 100, 2000);
    book.process_limit_order(buy_order).unwrap();

    // Try to cancel the filled order
    let result = book.cancel_order(1);
    assert_eq!(result, Err(OrderBookError::OrderAlreadyFilled(1)));
}

#[test]
fn test_self_trading_prevention() {
    let mut book = OrderBook::new("market1".to_string(), "YES".to_string());

    // Add a sell order
    let sell_order = create_test_order(1, "user1", Side::Sell, 5000, 100, 1000);
    book.process_limit_order(sell_order).unwrap();

    // Try to match with own order
    let buy_order = create_test_order(2, "user1", Side::Buy, 5000, 100, 2000);
    let result = book.process_limit_order(buy_order).unwrap();

    // No trades should occur
    assert_eq!(result.trades.len(), 0);
    assert_eq!(result.order.remaining_quantity, 100);

    // Both orders should be on the book
    assert_eq!(book.bid_levels(), 1);
    assert_eq!(book.ask_levels(), 1);
}

#[test]
fn test_duplicate_order_id() {
    let mut book = OrderBook::new("market1".to_string(), "YES".to_string());

    let order1 = create_test_order(1, "user1", Side::Sell, 5000, 100, 1000);
    book.process_limit_order(order1).unwrap();

    let order2 = create_test_order(1, "user2", Side::Sell, 5500, 100, 2000);
    let result = book.process_limit_order(order2);

    assert!(matches!(result, Err(OrderBookError::DuplicateOrderId(1))));
}

#[test]
fn test_invalid_price() {
    let mut book = OrderBook::new("market1".to_string(), "YES".to_string());

    let order = create_test_order(1, "user1", Side::Sell, 0, 100, 1000);
    let result = book.process_limit_order(order);

    assert!(matches!(result, Err(OrderBookError::InvalidPrice)));
}

#[test]
fn test_invalid_quantity() {
    let mut book = OrderBook::new("market1".to_string(), "YES".to_string());

    let mut order = create_test_order(1, "user1", Side::Sell, 5000, 0, 1000);
    order.remaining_quantity = 0;
    let result = book.process_limit_order(order);

    assert!(matches!(result, Err(OrderBookError::InvalidQuantity)));
}

#[test]
fn test_market_mismatch() {
    let mut book = OrderBook::new("market1".to_string(), "YES".to_string());

    let mut order = create_test_order(1, "user1", Side::Sell, 5000, 100, 1000);
    order.market_id = "market2".to_string();
    let result = book.process_limit_order(order);

    assert!(matches!(result, Err(OrderBookError::MarketMismatch)));
}

#[test]
fn test_bid_priority_highest_first() {
    let mut book = OrderBook::new("market1".to_string(), "YES".to_string());

    // Add buy orders at different prices
    let buy_low = create_test_order(1, "buyer1", Side::Buy, 5000, 100, 1000);
    let buy_high = create_test_order(2, "buyer2", Side::Buy, 6000, 100, 2000);

    book.process_limit_order(buy_low).unwrap();
    book.process_limit_order(buy_high).unwrap();

    // Sell order should match with highest bid first
    let sell_order = create_test_order(3, "seller", Side::Sell, 5000, 150, 3000);
    let result = book.process_limit_order(sell_order).unwrap();

    // Verify: highest bid matches first
    assert_eq!(result.trades.len(), 2);
    assert_eq!(result.trades[0].price, 6000);
    assert_eq!(result.trades[0].maker_order_id, 2);
    assert_eq!(result.trades[1].price, 5000);
    assert_eq!(result.trades[1].maker_order_id, 1);
}

#[test]
fn test_get_depth() {
    let mut book = OrderBook::new("market1".to_string(), "YES".to_string());

    // Add bids
    let bid1 = create_test_order(1, "user1", Side::Buy, 5000, 100, 1000);
    let bid2 = create_test_order(2, "user2", Side::Buy, 5100, 200, 2000);
    let bid3 = create_test_order(3, "user3", Side::Buy, 5200, 150, 3000);

    // Add asks
    let ask1 = create_test_order(4, "user4", Side::Sell, 5500, 100, 4000);
    let ask2 = create_test_order(5, "user5", Side::Sell, 5600, 200, 5000);

    book.process_limit_order(bid1).unwrap();
    book.process_limit_order(bid2).unwrap();
    book.process_limit_order(bid3).unwrap();
    book.process_limit_order(ask1).unwrap();
    book.process_limit_order(ask2).unwrap();

    let (bids, asks) = book.get_depth(2);

    // Bids should be highest first
    assert_eq!(bids.len(), 2);
    assert_eq!(bids[0], (5200, 150));
    assert_eq!(bids[1], (5100, 200));

    // Asks should be lowest first
    assert_eq!(asks.len(), 2);
    assert_eq!(asks[0], (5500, 100));
    assert_eq!(asks[1], (5600, 200));
}

#[test]
fn test_statistics() {
    let mut book = OrderBook::new("market1".to_string(), "YES".to_string());

    // Add and match orders
    let sell = create_test_order(1, "seller", Side::Sell, 5000, 100, 1000);
    book.process_limit_order(sell).unwrap();

    let buy = create_test_order(2, "buyer", Side::Buy, 5000, 100, 2000);
    book.process_limit_order(buy).unwrap();

    assert_eq!(book.total_trades, 1);
    assert_eq!(book.total_volume, 100);
}

#[test]
fn test_large_order_multiple_makers() {
    let mut book = OrderBook::new("market1".to_string(), "YES".to_string());

    // Add 5 sell orders at same price
    for i in 1..=5 {
        let order = create_test_order(i, &format!("seller{}", i), Side::Sell, 5000, 100, i * 1000);
        book.process_limit_order(order).unwrap();
    }

    assert_eq!(book.ask_quantity_at(5000), 500);

    // Large buy order
    let buy = create_test_order(10, "buyer", Side::Buy, 5000, 350, 10000);
    let result = book.process_limit_order(buy).unwrap();

    // Should have 4 trades (3 full + 1 partial)
    assert_eq!(result.trades.len(), 4);
    assert_eq!(result.order.status, OrderStatus::Filled);

    // Verify FIFO order
    assert_eq!(result.trades[0].maker_order_id, 1);
    assert_eq!(result.trades[1].maker_order_id, 2);
    assert_eq!(result.trades[2].maker_order_id, 3);
    assert_eq!(result.trades[3].maker_order_id, 4);
    assert_eq!(result.trades[3].quantity, 50);

    // Remaining on book
    assert_eq!(book.ask_quantity_at(5000), 150); // 50 from order 4 + 100 from order 5
}

#[test]
fn test_no_match_price_gap() {
    let mut book = OrderBook::new("market1".to_string(), "YES".to_string());

    // Add sell order at high price
    let sell = create_test_order(1, "seller", Side::Sell, 7000, 100, 1000);
    book.process_limit_order(sell).unwrap();

    // Add buy order at low price (no match)
    let buy = create_test_order(2, "buyer", Side::Buy, 5000, 100, 2000);
    let result = book.process_limit_order(buy).unwrap();

    assert_eq!(result.trades.len(), 0);
    assert_eq!(book.bid_levels(), 1);
    assert_eq!(book.ask_levels(), 1);
    assert_eq!(book.spread(), Some(2000));
}
