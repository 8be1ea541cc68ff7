//! One price level: a first-in, first-out queue of resting orders with a
//! cached total, and the matching of a taker against it.

use vstd::prelude::*;
use std::collections::{HashMap, VecDeque};
use crate::clock::current_timestamp;
use crate::lemmas::{lemma_sum_filter, lemma_sum_push};
use crate::model::{
    drop_cancelled, empty_level, fill_front, fill_in, fills_in, is_cancelled, issued_to,
    match_level, pop_front, push_back, sub_or_zero, sum_remaining, trade_view, without_order,
    Index, LevelMatching, LevelView,
};
use crate::types::{
    Order, OrderId, OrderMetadata, OrderStatus, OrderView, Quantity, Timestamp, Trade, TradeId,
};

verus! {

/// The orders as the model sees them.
pub open spec fn order_views(orders: Seq<Order>) -> Seq<OrderView> {
    Seq::new(orders.len(), |i: int| orders[i]@)
}

/// The resting orders at one price, oldest first.
#[derive(Debug)]
pub struct PriceLevelQueue {
    pub orders: VecDeque<Order>,
    /// Sum of what remains of the orders in the queue.
    pub total_quantity: Quantity,
}

impl View for PriceLevelQueue {
    type V = LevelView;

    open spec fn view(&self) -> LevelView {
        LevelView { orders: order_views(self.orders@), total_quantity: self.total_quantity }
    }
}

/// The trade between the taker and a maker, for the given quantity.
pub fn make_trade(
    taker: &Order,
    maker: &Order,
    id: TradeId,
    quantity: Quantity,
    timestamp: Timestamp,
) -> (trade: Trade)
    ensures
        trade == (Trade {
            id,
            taker_order_id: taker.id,
            maker_order_id: maker.id,
            taker_user_id: taker.user_id,
            maker_user_id: maker.user_id,
            market_id: maker.market_id,
            outcome_id: maker.outcome_id,
            price: maker.price,
            quantity,
            timestamp,
            taker_side: taker.side,
        }),
{
    Trade {
        id,
        taker_order_id: taker.id,
        maker_order_id: maker.id,
        taker_user_id: taker.user_id.clone(),
        maker_user_id: maker.user_id.clone(),
        market_id: maker.market_id.clone(),
        outcome_id: maker.outcome_id.clone(),
        price: maker.price,
        quantity,
        timestamp,
        taker_side: taker.side,
    }
}

/// Matching a taker that still wants something goes the same way once the
/// cancelled orders at the front of the level are gone.
pub proof fn lemma_match_level_drops_cancelled(taker_user: Seq<char>, s: LevelMatching)
    requires
        s.remaining > 0,
    ensures
        match_level(taker_user, s) == match_level(
            taker_user,
            LevelMatching { level: drop_cancelled(s.level, s.index), ..s },
        ),
    decreases s.level.orders.len(),
{
    if s.level.orders.len() > 0 && is_cancelled(s.index, s.level.orders[0].id) {
        lemma_match_level_drops_cancelled(
            taker_user,
            LevelMatching { level: pop_front(s.level), ..s },
        );
    }
}

/// Matching never takes a fill back.
pub proof fn lemma_match_level_keeps_fills(taker_user: Seq<char>, s: LevelMatching)
    ensures
        match_level(taker_user, s).fills.len() >= s.fills.len(),
    decreases s.level.orders.len(),
{
    if s.remaining == 0 || s.level.orders.len() == 0 {
    } else if is_cancelled(s.index, s.level.orders[0].id) {
        lemma_match_level_keeps_fills(taker_user, LevelMatching { level: pop_front(s.level), ..s });
    } else if s.level.orders[0].user_id == taker_user {
    } else if s.level.orders[0].remaining_quantity <= s.remaining {
        lemma_match_level_keeps_fills(taker_user, fill_front(s));
    }
}

/// The state of matching that the executable values stand for.
pub open spec fn level_state(
    level: PriceLevelQueue,
    index: Index,
    taker: Order,
    trades: Seq<Trade>,
) -> LevelMatching {
    LevelMatching {
        level: level@,
        index,
        remaining: taker.remaining_quantity,
        fills: fills_in(trades),
        blocked: false,
    }
}

impl PriceLevelQueue {
    /// A level with no order in it.
    pub fn new() -> (level: Self)
        ensures
            level@ == empty_level(),
    {
        let level = PriceLevelQueue { orders: VecDeque::new(), total_quantity: 0 };
        assert(level@.orders =~= Seq::<OrderView>::empty());
        level
    }

    /// Puts the order behind the others.
    pub fn push_back(&mut self, order: Order)
        requires
            old(self).total_quantity + order.remaining_quantity <= u64::MAX,
        ensures
            final(self)@ == push_back(old(self)@, order@),
            final(self).orders@ == old(self).orders@.push(order),
    {
        self.total_quantity = self.total_quantity + order.remaining_quantity;
        self.orders.push_back(order);
        assert(self@.orders =~= old(self)@.orders.push(order@));
    }

    /// Whether no order is in the queue.
    pub fn is_empty(&self) -> (empty: bool)
        ensures
            empty == (self@.orders.len() == 0),
    {
        self.orders.len() == 0
    }

    /// Takes the oldest order out, and what it still held off the total.
    pub fn pop_front(&mut self) -> (front: Option<Order>)
        ensures
            match front {
                Some(order) => {
                    &&& old(self)@.orders.len() > 0
                    &&& order == old(self).orders@[0]
                    &&& final(self)@ == pop_front(old(self)@)
                },
                None => old(self)@.orders.len() == 0 && final(self)@ == old(self)@,
            },
    {
        match self.orders.pop_front() {
            Some(order) => {
                self.update_quantity(order.remaining_quantity);
                assert(old(self)@.orders[0] == order@);
                assert(self@.orders =~= old(self)@.orders.drop_first());
                Some(order)
            },
            None => None,
        }
    }

    /// Takes the cancelled orders at the front out, and says how many
    /// they were.
    pub fn cleanup_cancelled(&mut self, index: &HashMap<OrderId, OrderMetadata>) -> (removed: usize)
        ensures
            final(self)@ == drop_cancelled(old(self)@, index@),
            removed == old(self)@.orders.len() - final(self)@.orders.len(),
            final(self)@.orders.len() > 0 ==> !is_cancelled(index@, final(self)@.orders[0].id),
    {
        broadcast use vstd::std_specs::hash::group_hash_axioms;
        let mut removed: usize = 0;
        assert(old(self)@.orders.len() == old(self).orders.len());
        loop
            invariant
                drop_cancelled(self@, index@) == drop_cancelled(old(self)@, index@),
                removed + self@.orders.len() == old(self)@.orders.len(),
                old(self)@.orders.len() <= usize::MAX,
            ensures
                self@ == drop_cancelled(old(self)@, index@),
                removed + self@.orders.len() == old(self)@.orders.len(),
                self@.orders.len() > 0 ==> !is_cancelled(index@, self@.orders[0].id),
            decreases self@.orders.len(),
        {
            if self.orders.len() == 0 {
                break;
            }
            let cancelled = match index.get(&self.orders[0].id) {
                Some(metadata) => metadata.status == OrderStatus::Cancelled,
                None => false,
            };
            assert(cancelled == is_cancelled(index@, self@.orders[0].id));
            if !cancelled {
                break;
            }
            self.pop_front();
            removed = removed + 1;
        }
        removed
    }

    /// Trades the taker with the oldest order of the level, for as much as
    /// both allow, under the given trade identifier and time. Without an
    /// order in the level nothing happens.
    pub fn fill_front(
        &mut self,
        index: &mut HashMap<OrderId, OrderMetadata>,
        taker: &mut Order,
        trade_id: TradeId,
        timestamp: Timestamp,
    ) -> (traded: Option<Trade>)
        ensures
            match traded {
                None => {
                    &&& old(self)@.orders.len() == 0
                    &&& final(self)@ == old(self)@
                    &&& final(index)@ == old(index)@
                    &&& *final(taker) == *old(taker)
                },
                Some(trade) => {
                    let after = fill_front(
                        level_state(*old(self), old(index)@, *old(taker), Seq::empty()),
                    );
                    &&& old(self)@.orders.len() > 0
                    &&& final(self)@ == after.level
                    &&& final(index)@ == after.index
                    &&& *final(taker) == (Order {
                        remaining_quantity: after.remaining,
                        ..*old(taker)
                    })
                    &&& trade@ == trade_view(old(taker)@, after.fills[0], trade_id, timestamp)
                },
            },
    {
        broadcast use vstd::std_specs::hash::group_hash_axioms;
        match self.orders.pop_front() {
            None => None,
            Some(maker) => {
                let mut maker = maker;
                let ghost before = maker@;
                assert(old(self)@.orders[0] == before);
                let quantity = if taker.remaining_quantity <= maker.remaining_quantity {
                    taker.remaining_quantity
                } else {
                    maker.remaining_quantity
                };
                let trade = make_trade(taker, &maker, trade_id, quantity, timestamp);
                taker.remaining_quantity = taker.remaining_quantity - quantity;
                let rest = maker.remaining_quantity - quantity;
                let maker_id = maker.id;
                self.update_quantity(quantity);
                if rest > 0 {
                    maker.remaining_quantity = rest;
                    maker.status = OrderStatus::PartiallyFilled;
                    self.orders.push_front(maker);
                    assert(self@.orders =~= old(self)@.orders.update(
                        0,
                        OrderView {
                            remaining_quantity: rest,
                            status: OrderStatus::PartiallyFilled,
                            ..before
                        },
                    ));
                } else {
                    assert(self@.orders =~= old(self)@.orders.drop_first());
                }
                let known = match index.get(&maker_id) {
                    Some(metadata) => Some(metadata.price),
                    None => None,
                };
                match known {
                    Some(price) => {
                        let status = if rest == 0 {
                            OrderStatus::Filled
                        } else {
                            OrderStatus::PartiallyFilled
                        };
                        index.insert(
                            maker_id,
                            OrderMetadata { price, status, remaining_quantity: rest },
                        );
                    },
                    None => {},
                }
                Some(trade)
            },
        }
    }

    /// Matches the taker against the level, oldest order first: cancelled
    /// orders leave the queue, an order of the taker's own user stops the
    /// matching, any other order trades. Says whether such an order stopped
    /// it. Each trade takes the next identifier and the time at which it
    /// was made.
    pub fn match_against(
        &mut self,
        index: &mut HashMap<OrderId, OrderMetadata>,
        taker: &mut Order,
        trades: &mut Vec<Trade>,
        next_trade_id: &mut TradeId,
    ) -> (blocked: bool)
        requires
            *old(next_trade_id) + match_level(
                old(taker).user_id@,
                level_state(*old(self), old(index)@, *old(taker), old(trades)@),
            ).fills.len() - old(trades)@.len() <= u64::MAX,
        ensures
            ({
                let end = match_level(
                    old(taker).user_id@,
                    level_state(*old(self), old(index)@, *old(taker), old(trades)@),
                );
                &&& final(self)@ == end.level
                &&& final(index)@ == end.index
                &&& *final(taker) == (Order { remaining_quantity: end.remaining, ..*old(taker) })
                &&& fills_in(final(trades)@) == end.fills
                &&& blocked == end.blocked
                &&& final(trades)@.len() >= old(trades)@.len()
                &&& final(trades)@.subrange(0, old(trades)@.len() as int) == old(trades)@
                &&& *final(next_trade_id) == *old(next_trade_id) + final(trades)@.len() - old(
                    trades,
                )@.len()
                &&& issued_to(
                    final(trades)@,
                    old(trades)@.len() as int,
                    old(taker)@,
                    *old(next_trade_id) as int,
                )
            }),
    {
        let ghost user = taker.user_id@;
        let ghost goal = match_level(
            user,
            level_state(*old(self), old(index)@, *old(taker), old(trades)@),
        );
        let ghost first = old(trades)@.len();
        let mut blocked = false;
        loop
            invariant_except_break
                !blocked,
            invariant
                match_level(user, level_state(*self, index@, *taker, trades@)) == goal,
                *taker == (Order { remaining_quantity: taker.remaining_quantity, ..*old(taker) }),
                user == old(taker).user_id@,
                first == old(trades)@.len(),
                trades@.len() >= first,
                trades@.subrange(0, first as int) == old(trades)@,
                *next_trade_id == *old(next_trade_id) + trades@.len() - first,
                *old(next_trade_id) + goal.fills.len() - first <= u64::MAX,
                issued_to(trades@, first as int, old(taker)@, *old(next_trade_id) as int),
            ensures
                goal == (LevelMatching { blocked, ..level_state(*self, index@, *taker, trades@) }),
                *taker == (Order { remaining_quantity: taker.remaining_quantity, ..*old(taker) }),
                trades@.len() >= first,
                trades@.subrange(0, first as int) == old(trades)@,
                *next_trade_id == *old(next_trade_id) + trades@.len() - first,
                issued_to(trades@, first as int, old(taker)@, *old(next_trade_id) as int),
            decreases self@.orders.len(), taker.remaining_quantity,
        {
            if taker.remaining_quantity == 0 {
                break;
            }
            proof {
                lemma_match_level_drops_cancelled(
                    user,
                    level_state(*self, index@, *taker, trades@),
                );
            }
            self.cleanup_cancelled(index);
            if self.orders.len() == 0 {
                break;
            }
            assert(self@.orders[0] == self.orders@[0]@);
            if self.orders[0].user_id == taker.user_id {
                blocked = true;
                break;
            }
            let ghost before = level_state(*self, index@, *taker, trades@);
            proof {
                lemma_match_level_keeps_fills(user, fill_front(before));
                assert(match_level(user, before) == goal);
                assert(before.fills.len() == trades@.len());
                assert(goal.fills.len() > trades@.len());
            }
            let timestamp = current_timestamp();
            let ghost taker_before = taker@;
            match self.fill_front(index, taker, *next_trade_id, timestamp) {
                Some(trade) => {
                    let ghost shown = trade@;
                    trades.push(trade);
                    *next_trade_id = *next_trade_id + 1;
                    proof {
                        let alone = fill_front(LevelMatching { fills: Seq::empty(), ..before });
                        assert(fill_in(shown) == alone.fills[0]);
                        assert(fills_in(trades@) =~= before.fills.push(alone.fills[0]));
                        assert(level_state(*self, index@, *taker, trades@) == fill_front(before));
                    }
                },
                None => {},
            }
        }
        blocked
    }

    /// Takes every order of the given identifier out of the queue and sums
    /// the total anew over the orders that stay.
    pub fn remove_order(&mut self, id: OrderId)
        requires
            sum_remaining(old(self)@.orders) <= u64::MAX,
        ensures
            final(self)@ == without_order(old(self)@, id),
    {
        let ghost keep = |o: OrderView| o.id != id;
        let ghost all = old(self)@.orders;
        let ghost mut done: Seq<OrderView> = Seq::empty();
        let mut kept: VecDeque<Order> = VecDeque::new();
        let mut total: u64 = 0;
        proof {
            assert(done + self@.orders =~= all);
            assert(order_views(kept@) =~= done.filter(keep)) by {
                reveal(Seq::filter);
            }
        }
        loop
            invariant
                done + self@.orders == all,
                order_views(kept@) == done.filter(keep),
                total == sum_remaining(order_views(kept@)),
                sum_remaining(done) + sum_remaining(self@.orders) == sum_remaining(all),
                sum_remaining(all) <= u64::MAX,
                keep == |o: OrderView| o.id != id,
            ensures
                self@.orders.len() == 0,
                done == all,
                order_views(kept@) == done.filter(keep),
                total == sum_remaining(order_views(kept@)),
            decreases self@.orders.len(),
        {
            let ghost rest = self@.orders;
            match self.orders.pop_front() {
                None => {
                    assert(done =~= all);
                    break;
                },
                Some(order) => {
                    proof {
                        assert(rest[0] == order@);
                        assert(self@.orders =~= rest.drop_first());
                        lemma_sum_push(done, order@);
                        lemma_sum_filter(done, keep);
                        done.lemma_filter_push(order@, keep);
                        assert(done.push(order@) + self@.orders =~= all);
                    }
                    if order.id != id {
                        proof {
                            lemma_sum_push(done.filter(keep), order@);
                        }
                        total = total + order.remaining_quantity;
                        let ghost before = kept@;
                        kept.push_back(order);
                        assert(order_views(kept@) =~= order_views(before).push(order@));
                    }
                    proof {
                        done = done.push(order@);
                    }
                },
            }
        }
        self.orders = kept;
        self.total_quantity = total;
    }

    /// Takes a filled quantity off the total.
    pub fn update_quantity(&mut self, filled: Quantity)
        ensures
            final(self).orders == old(self).orders,
            final(self).total_quantity == sub_or_zero(old(self).total_quantity, filled),
    {
        self.total_quantity = if self.total_quantity >= filled {
            self.total_quantity - filled
        } else {
            0
        };
    }
}

} // verus!
