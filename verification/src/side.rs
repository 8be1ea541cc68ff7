//! One side of the book: its price levels in price order, and the matching
//! of a taker against them, best price first.

use vstd::prelude::*;
use std::collections::{BTreeMap, HashMap};
use vstd::std_specs::cmp::OrdSpec;
use vstd::std_specs::iter::IteratorSpec;
use crate::level::{level_state, lemma_match_level_keeps_fills, PriceLevelQueue};
use crate::model::{
    best_price, crosses, depth, fills_in, is_best, issued_to, level_total, match_level, match_side,
    purge, sum_remaining, Index, LevelMatching, Levels, Matching,
};
use crate::types::{
    Order, OrderId, OrderMetadata, OrderView, Price, Quantity, Side, Trade, TradeId,
};

verus! {

/// The levels as the model sees them.
pub open spec fn levels_view(levels: Map<Price, PriceLevelQueue>) -> Levels {
    levels.map_values(|level: PriceLevelQueue| level@)
}

/// There is at most one best price.
pub proof fn lemma_best_price_is(levels: Levels, taker_side: Side, p: u64)
    requires
        is_best(levels, taker_side, p),
    ensures
        best_price(levels, taker_side) == Some(p),
{
    let q = choose|q: u64| is_best(levels, taker_side, q);
    assert(levels.contains_key(p));
    assert(levels.contains_key(q));
}

/// Without a level there is no best price.
pub proof fn lemma_best_price_of_none(levels: Levels, taker_side: Side)
    requires
        forall|q: u64| !levels.contains_key(q),
    ensures
        best_price(levels, taker_side) is None,
{
}

/// Prices in the order in which the map walks its keys ascend.
pub proof fn lemma_walk_ascends(prices: Seq<u64>)
    requires
        vstd::std_specs::btree::increasing_seq(prices),
    ensures
        forall|i: int, j: int| 0 <= i < j < prices.len() ==> prices[i] < prices[j],
{
    broadcast use vstd::std_specs::btree::group_btree_axioms;
    assert forall|i: int, j: int| 0 <= i < j < prices.len() implies prices[i] < prices[j] by {
        assert(prices[i].cmp_spec(&prices[j]) is Less);
    }
}

/// The lowest price with a level, if there is a level.
pub fn lowest_price(levels: &BTreeMap<Price, PriceLevelQueue>) -> (price: Option<Price>)
    ensures
        match price {
            Some(p) => is_best(levels_view(levels@), Side::Buy, p),
            None => forall|q: u64| !levels@.contains_key(q),
        },
{
    broadcast use vstd::std_specs::btree::group_btree_axioms;
    for entry in walk: levels.iter()
        invariant
            walk.index() == 0,
            vstd::std_specs::btree::increasing_seq(
                walk.seq().map_values(|kv: (&Price, &PriceLevelQueue)| *kv.0),
            ),
    {
        let (first, _level) = entry;
        proof {
            let entries = walk.seq();
            let prices = entries.map_values(|kv: (&Price, &PriceLevelQueue)| *kv.0);
            assert(entries[0].0 == first);
            assert(levels@.contains_key(*first));
            assert forall|q: u64| levels@.contains_key(q) implies *first <= q by {
                assert(entries.contains((&q, &levels@[q])));
                let j = choose|j: int| 0 <= j < entries.len() && entries[j] == (&q, &levels@[q]);
                assert(prices[j] == q);
                assert(prices[0] == *first);
                if j > 0 {
                    assert(prices[0].cmp_spec(&prices[j]) is Less);
                }
            }
            assert(is_best(levels_view(levels@), Side::Buy, *first));
        }
        return Some(*first);
    }
    proof {
        assert(levels@.dom().len() == 0);
        assert(levels@.dom().finite());
        assert forall|q: u64| !levels@.contains_key(q) by {
            if levels@.contains_key(q) {
                assert(levels@.dom().contains(q));
            }
        }
    }
    None
}

/// The highest price with a level, if there is a level.
///
/// This is the key that `BTreeMap::last_key_value` gives. Taken on trust
/// from the documentation of that method, not proved: the key is in the map
/// and no key of the map is larger, and nothing is given only where the map
/// is empty. (The walk of the map that the proofs here rest on runs from the
/// lowest key up, so the lowest price is found by proof and the highest by
/// this.)
#[verifier::external_body]
fn highest_price(levels: &BTreeMap<Price, PriceLevelQueue>) -> (price: Option<Price>)
    ensures
        match price {
            Some(p) => levels@.contains_key(p) && forall|q: u64|
                levels@.contains_key(q) ==> q <= p,
            None => forall|q: u64| !levels@.contains_key(q),
        },
{
    match levels.last_key_value() {
        Some((price, _)) => Some(*price),
        None => None,
    }
}

/// The price that a taker of the given side meets first.
pub fn best_level_price(levels: &BTreeMap<Price, PriceLevelQueue>, taker_side: Side) -> (price:
    Option<Price>)
    ensures
        price == best_price(levels_view(levels@), taker_side),
        match price {
            Some(p) => is_best(levels_view(levels@), taker_side, p),
            None => forall|q: u64| !levels@.contains_key(q),
        },
{
    let price = match taker_side {
        Side::Buy => lowest_price(levels),
        Side::Sell => highest_price(levels),
    };
    proof {
        match price {
            Some(p) => {
                assert(is_best(levels_view(levels@), taker_side, p));
                lemma_best_price_is(levels_view(levels@), taker_side, p);
            },
            None => {
                lemma_best_price_of_none(levels_view(levels@), taker_side);
            },
        }
    }
    price
}

/// Cached total of the level at the given price, zero where there is none.
pub fn quantity_at(levels: &BTreeMap<Price, PriceLevelQueue>, price: Price) -> (total: u64)
    ensures
        total == level_total(levels_view(levels@), price),
{
    broadcast use vstd::std_specs::btree::group_btree_axioms;
    match levels.get(&price) {
        Some(level) => level.total_quantity,
        None => 0,
    }
}

/// Number of levels on the side.
pub fn level_count(levels: &BTreeMap<Price, PriceLevelQueue>) -> (count: usize)
    ensures
        count == levels_view(levels@).dom().len(),
{
    broadcast use vstd::std_specs::btree::group_btree_axioms;
    assert(levels_view(levels@).dom() =~= levels@.dom());
    levels.len()
}

/// Takes the order of the given identifier out of the level at the given
/// price, sums that level's total anew, and drops the level where nothing
/// is left in it.
pub fn purge_level(levels: &mut BTreeMap<Price, PriceLevelQueue>, price: Price, id: OrderId)
    requires
        old(levels)@.contains_key(price) ==> sum_remaining(old(levels)@[price]@.orders)
            <= u64::MAX,
    ensures
        levels_view(final(levels)@) == purge(levels_view(old(levels)@), price, id),
{
    broadcast use vstd::std_specs::btree::group_btree_axioms;
    match levels.remove(&price) {
        Some(level) => {
            let mut level = level;
            level.remove_order(id);
            if level.is_empty() {
                assert(levels_view(levels@) =~= purge(levels_view(old(levels)@), price, id));
            } else {
                levels.insert(price, level);
                assert(levels_view(levels@) =~= purge(levels_view(old(levels)@), price, id));
            }
        },
        None => {
            assert(levels_view(levels@) =~= purge(levels_view(old(levels)@), price, id));
        },
    }
}

/// Whether the rows list every level of the side, with its price and its
/// total, prices ascending.
pub open spec fn lists_ascending(levels: Levels, rows: Seq<(u64, u64)>) -> bool {
    &&& forall|i: int, j: int| 0 <= i < j < rows.len() ==> rows[i].0 < rows[j].0
    &&& forall|i: int|
        0 <= i < rows.len() ==> levels.contains_key((#[trigger] rows[i]).0) && rows[i].1
            == levels[rows[i].0].total_quantity
    &&& forall|q: u64| #[trigger]
        levels.contains_key(q) ==> exists|i: int| 0 <= i < rows.len() && rows[i].0 == q
}

/// The first count rows, or all where there are fewer.
pub open spec fn first_rows(rows: Seq<(u64, u64)>, count: nat) -> Seq<(u64, u64)> {
    rows.subrange(0, if count <= rows.len() { count as int } else { rows.len() as int })
}

/// The last count rows in reverse, or all where there are fewer.
pub open spec fn last_rows(rows: Seq<(u64, u64)>, count: nat) -> Seq<(u64, u64)> {
    Seq::new(
        if count <= rows.len() { count } else { rows.len() },
        |i: int| rows[rows.len() - 1 - i],
    )
}

/// What a buyer meets is the ascending list from its start.
pub proof fn lemma_depth_ascending(levels: Levels, rows: Seq<(u64, u64)>, count: nat)
    requires
        lists_ascending(levels, rows),
    ensures
        depth(levels, Side::Buy, count) == first_rows(rows, count),
    decreases count,
{
    if count == 0 {
        assert(first_rows(rows, count) =~= Seq::empty());
    } else if rows.len() == 0 {
        assert forall|q: u64| !levels.contains_key(q) by {}
        lemma_best_price_of_none(levels, Side::Buy);
        assert(first_rows(rows, count) =~= Seq::empty());
    } else {
        let p = rows[0].0;
        assert(is_best(levels, Side::Buy, p)) by {
            assert forall|q: u64| #[trigger] levels.contains_key(q) implies p <= q by {
                let i = choose|i: int| 0 <= i < rows.len() && rows[i].0 == q;
            }
        }
        lemma_best_price_is(levels, Side::Buy, p);
        let others = rows.drop_first();
        assert(lists_ascending(levels.remove(p), others)) by {
            assert forall|i: int| 0 <= i < others.len() implies levels.remove(p).contains_key(
                (#[trigger] others[i]).0,
            ) && others[i].1 == levels.remove(p)[others[i].0].total_quantity by {
                assert(others[i] == rows[i + 1]);
            }
            assert forall|q: u64| #[trigger] levels.remove(p).contains_key(q) implies exists|
                i: int,
            |
                0 <= i < others.len() && others[i].0 == q by {
                assert(levels.contains_key(q));
                let i = choose|i: int| 0 <= i < rows.len() && rows[i].0 == q;
                assert(others[i - 1].0 == q);
            }
        }
        lemma_depth_ascending(levels.remove(p), others, (count - 1) as nat);
        assert(seq![rows[0]] + first_rows(others, (count - 1) as nat) =~= first_rows(rows, count));
    }
}

/// What a seller meets is the ascending list from its end.
pub proof fn lemma_depth_descending(levels: Levels, rows: Seq<(u64, u64)>, count: nat)
    requires
        lists_ascending(levels, rows),
    ensures
        depth(levels, Side::Sell, count) == last_rows(rows, count),
    decreases count,
{
    if count == 0 {
        assert(last_rows(rows, count) =~= Seq::empty());
    } else if rows.len() == 0 {
        assert forall|q: u64| !levels.contains_key(q) by {}
        lemma_best_price_of_none(levels, Side::Sell);
        assert(last_rows(rows, count) =~= Seq::empty());
    } else {
        let p = rows.last().0;
        assert(is_best(levels, Side::Sell, p)) by {
            assert forall|q: u64| #[trigger] levels.contains_key(q) implies p >= q by {
                let i = choose|i: int| 0 <= i < rows.len() && rows[i].0 == q;
            }
        }
        lemma_best_price_is(levels, Side::Sell, p);
        let others = rows.drop_last();
        assert(lists_ascending(levels.remove(p), others)) by {
            assert forall|i: int| 0 <= i < others.len() implies levels.remove(p).contains_key(
                (#[trigger] others[i]).0,
            ) && others[i].1 == levels.remove(p)[others[i].0].total_quantity by {
                assert(others[i] == rows[i]);
            }
            assert forall|q: u64| #[trigger] levels.remove(p).contains_key(q) implies exists|
                i: int,
            |
                0 <= i < others.len() && others[i].0 == q by {
                assert(levels.contains_key(q));
                let i = choose|i: int| 0 <= i < rows.len() && rows[i].0 == q;
                assert(others[i].0 == q);
            }
        }
        lemma_depth_descending(levels.remove(p), others, (count - 1) as nat);
        assert(seq![rows.last()] + last_rows(others, (count - 1) as nat) =~= last_rows(
            rows,
            count,
        ));
    }
}

/// The row that the walk of the map gives for an entry.
pub open spec fn row_of(entry: (&Price, &PriceLevelQueue)) -> (u64, u64) {
    (*entry.0, entry.1.total_quantity)
}

/// Every level of the side with its price and its total, prices ascending.
pub fn all_rows(levels: &BTreeMap<Price, PriceLevelQueue>) -> (rows: Vec<(Price, Quantity)>)
    ensures
        lists_ascending(levels_view(levels@), rows@),
{
    broadcast use vstd::std_specs::btree::group_btree_axioms;
    let ghost entries = levels.iter().remaining();
    let ghost mut seen: int = 0;
    let mut rows: Vec<(Price, Quantity)> = Vec::new();
    for entry in walk: levels.iter()
        invariant
            walk.seq() == entries,
            seen == walk.index(),
            vstd::std_specs::btree::increasing_seq(
                entries.map_values(|kv: (&Price, &PriceLevelQueue)| *kv.0),
            ),
            forall|i: int|
                0 <= i < entries.len() ==> levels@.contains_key(*(#[trigger] entries[i]).0)
                    && levels@[*entries[i].0] == *entries[i].1,
            forall|k: u64| #[trigger]
                levels@.contains_key(k) ==> entries.contains((&k, &levels@[k])),
            rows@.len() == seen,
            forall|i: int| 0 <= i < seen ==> #[trigger] rows@[i] == row_of(entries[i]),
    {
        let (price, level) = entry;
        rows.push((*price, level.total_quantity));
        proof {
            seen = seen + 1;
        }
    }
    proof {
        let prices = entries.map_values(|kv: (&Price, &PriceLevelQueue)| *kv.0);
        lemma_walk_ascends(prices);
        let view = levels_view(levels@);
        assert forall|i: int, j: int| 0 <= i < j < rows@.len() implies rows@[i].0
            < rows@[j].0 by {
            assert(prices[i] == rows@[i].0);
            assert(prices[j] == rows@[j].0);
        }
        assert forall|q: u64| #[trigger] view.contains_key(q) implies exists|i: int|
            0 <= i < rows@.len() && rows@[i].0 == q by {
            assert(levels@.contains_key(q));
            assert(entries.contains((&q, &levels@[q])));
            let i = choose|i: int| 0 <= i < entries.len() && entries[i] == (&q, &levels@[q]);
            assert(rows@[i].0 == q);
        }
    }
    rows
}

/// The first `count` levels that a taker of the given side would meet, best
/// price first, each with its price and its total.
pub fn top_levels(levels: &BTreeMap<Price, PriceLevelQueue>, taker_side: Side, count: usize) -> (top:
    Vec<(Price, Quantity)>)
    ensures
        top@ == depth(levels_view(levels@), taker_side, count as nat),
{
    let rows = all_rows(levels);
    let take = if count <= rows.len() {
        count
    } else {
        rows.len()
    };
    let mut top: Vec<(Price, Quantity)> = Vec::new();
    let mut i: usize = 0;
    while i < take
        invariant
            take <= rows.len(),
            i <= take,
            top@.len() == i,
            forall|j: int|
                0 <= j < i ==> #[trigger] top@[j] == (match taker_side {
                    Side::Buy => rows@[j],
                    Side::Sell => rows@[rows@.len() - 1 - j],
                }),
        decreases take - i,
    {
        let row = match taker_side {
            Side::Buy => rows[i],
            Side::Sell => rows[rows.len() - 1 - i],
        };
        top.push(row);
        i = i + 1;
    }
    proof {
        match taker_side {
            Side::Buy => {
                lemma_depth_ascending(levels_view(levels@), rows@, count as nat);
                assert(top@ =~= first_rows(rows@, count as nat));
            },
            Side::Sell => {
                lemma_depth_descending(levels_view(levels@), rows@, count as nat);
                assert(top@ =~= last_rows(rows@, count as nat));
            },
        }
    }
    top
}

/// The state of matching that the executable values stand for.
pub open spec fn side_state(
    levels: Map<Price, PriceLevelQueue>,
    index: Index,
    taker: Order,
    trades: Seq<Trade>,
) -> Matching {
    Matching {
        levels: levels_view(levels),
        index,
        remaining: taker.remaining_quantity,
        fills: fills_in(trades),
        blocked: false,
    }
}

/// The state of matching against the level at `p` that a state of matching
/// against the side starts from.
pub open spec fn level_start(s: Matching, p: u64) -> LevelMatching {
    LevelMatching {
        level: s.levels[p],
        index: s.index,
        remaining: s.remaining,
        fills: s.fills,
        blocked: false,
    }
}

/// Matching never takes a fill back.
pub proof fn lemma_match_side_keeps_fills(taker: OrderView, s: Matching)
    requires
        s.levels.dom().finite(),
    ensures
        match_side(taker, s).fills.len() >= s.fills.len(),
    decreases s.levels.dom().len(),
{
    if s.remaining != 0 {
        match best_price(s.levels, taker.side) {
            None => {},
            Some(p) => {
                if crosses(taker.side, taker.price, p) {
                    let r = match_level(taker.user_id, level_start(s, p));
                    lemma_match_level_keeps_fills(taker.user_id, level_start(s, p));
                    if r.level.orders.len() == 0 {
                        assert(is_best(s.levels, taker.side, p));
                        lemma_match_side_keeps_fills(
                            taker,
                            Matching {
                                levels: s.levels.remove(p),
                                index: r.index,
                                remaining: r.remaining,
                                fills: r.fills,
                                blocked: false,
                            },
                        );
                    }
                }
            },
        }
    }
}

/// Matches the taker against the side, best price first, until nothing is
/// left of the taker, a resting order of its own user is met, or no level
/// crosses its price. Levels that the matching empties leave the side. Says
/// whether an order of the taker's own user stopped the matching.
pub fn match_levels(
    levels: &mut BTreeMap<Price, PriceLevelQueue>,
    index: &mut HashMap<OrderId, OrderMetadata>,
    taker: &mut Order,
    trades: &mut Vec<Trade>,
    next_trade_id: &mut TradeId,
) -> (blocked: bool)
    requires
        *old(next_trade_id) + match_side(
            old(taker)@,
            side_state(old(levels)@, old(index)@, *old(taker), old(trades)@),
        ).fills.len() - old(trades)@.len() <= u64::MAX,
    ensures
        ({
            let end = match_side(
                old(taker)@,
                side_state(old(levels)@, old(index)@, *old(taker), old(trades)@),
            );
            &&& levels_view(final(levels)@) == end.levels
            &&& final(index)@ == end.index
            &&& *final(taker) == (Order { remaining_quantity: end.remaining, ..*old(taker) })
            &&& fills_in(final(trades)@) == end.fills
            &&& blocked == end.blocked
            &&& final(trades)@.len() >= old(trades)@.len()
            &&& final(trades)@.subrange(0, old(trades)@.len() as int) == old(trades)@
            &&& *final(next_trade_id) == *old(next_trade_id) + final(trades)@.len() - old(
                trades,
            )@.len()
            &&& issued_to(
                final(trades)@,
                old(trades)@.len() as int,
                old(taker)@,
                *old(next_trade_id) as int,
            )
        }),
{
    broadcast use vstd::std_specs::btree::group_btree_axioms;
    let ghost who = old(taker)@;
    let ghost goal = match_side(
        who,
        side_state(old(levels)@, old(index)@, *old(taker), old(trades)@),
    );
    let ghost first = old(trades)@.len();
    let mut blocked = false;
    loop
        invariant_except_break
            !blocked,
            match_side(who, side_state(levels@, index@, *taker, trades@)) == goal,
        invariant
            *taker == (Order { remaining_quantity: taker.remaining_quantity, ..*old(taker) }),
            who == old(taker)@,
            first == old(trades)@.len(),
            trades@.len() >= first,
            trades@.subrange(0, first as int) == old(trades)@,
            *next_trade_id == *old(next_trade_id) + trades@.len() - first,
            *old(next_trade_id) + goal.fills.len() - first <= u64::MAX,
            issued_to(trades@, first as int, who, *old(next_trade_id) as int),
        ensures
            goal == (Matching { blocked, ..side_state(levels@, index@, *taker, trades@) }),
            *taker == (Order { remaining_quantity: taker.remaining_quantity, ..*old(taker) }),
            trades@.len() >= first,
            trades@.subrange(0, first as int) == old(trades)@,
            *next_trade_id == *old(next_trade_id) + trades@.len() - first,
            issued_to(trades@, first as int, who, *old(next_trade_id) as int),
        decreases levels@.dom().len(),
    {
        let ghost before = side_state(levels@, index@, *taker, trades@);
        assert(before.levels.dom() =~= levels@.dom());
        if taker.remaining_quantity == 0 {
            break;
        }
        let price = match best_level_price(levels, taker.side) {
            Some(price) => price,
            None => {
                break;
            },
        };
        let crossing = match taker.side {
            Side::Buy => price <= taker.price,
            Side::Sell => price >= taker.price,
        };
        if !crossing {
            break;
        }
        let mut level = match levels.remove(&price) {
            Some(level) => level,
            None => {
                assert(false);
                break;
            },
        };
        assert(level@ == before.levels[price]);
        let ghost start = level_state(level, index@, *taker, trades@);
        assert(start == level_start(before, price));
        let ghost first_here = trades@.len();
        let ghost id_here = *next_trade_id;
        let ghost taker_here = *taker;
        proof {
            let r = match_level(who.user_id, start);
            lemma_match_level_keeps_fills(who.user_id, start);
            if r.level.orders.len() == 0 {
                lemma_match_side_keeps_fills(
                    who,
                    Matching {
                        levels: before.levels.remove(price),
                        index: r.index,
                        remaining: r.remaining,
                        fills: r.fills,
                        blocked: false,
                    },
                );
            }
            assert(goal.fills.len() >= r.fills.len());
            assert(start.fills.len() == trades@.len());
        }
        let stopped = level.match_against(index, taker, trades, next_trade_id);
        proof {
            assert(trades@.subrange(0, first as int) =~= old(trades)@) by {
                assert(trades@.subrange(0, first_here as int).subrange(0, first as int)
                    =~= trades@.subrange(0, first as int));
            }
            assert(issued_to(trades@, first as int, who, *old(next_trade_id) as int)) by {
                assert forall|i: int| first <= i < trades@.len() implies {
                    &&& (#[trigger] trades@[i]).id == *old(next_trade_id) as int + (i - first)
                    &&& trades@[i].taker_order_id == who.id
                    &&& trades@[i].taker_user_id@ == who.user_id
                    &&& trades@[i].taker_side == who.side
                } by {
                    if i < first_here {
                        assert(trades@[i] == trades@.subrange(0, first_here as int)[i]);
                    }
                }
            }
        }
        if level.is_empty() {
            assert(levels_view(levels@) =~= before.levels.remove(price));
        } else {
            levels.insert(price, level);
            assert(levels_view(levels@) =~= before.levels.insert(price, level@));
            blocked = stopped;
            break;
        }
    }
    blocked
}

} // verus!
