//! Soundness of the book, and its preservation by every command.

use vstd::prelude::*;
use crate::lemmas::{lemma_filter_keeps_all, lemma_sum_filter, lemma_sum_push};
use crate::model::{
    absent, best_price, crosses, disjoint_sides, fill_front, is_active, is_best, is_cancelled,
    level_total, level_wf, match_level, match_side, pop_front, purge, push_back, queue_ok,
    resident_ok, rest, settled, side_wf, sum_remaining, without_order, BookView, Index,
    LevelMatching, LevelView, Levels, Matching,
};
use crate::types::{OrderView, Side};

verus! {

/// The side across from the given one.
pub open spec fn other_side(side: Side) -> Side {
    match side {
        Side::Buy => Side::Sell,
        Side::Sell => Side::Buy,
    }
}

/// Whether the second index knows all that the first knows, and the same of
/// every order but the given one.
pub open spec fn agrees_off(index: Index, changed: Index, id: u64) -> bool {
    forall|k: u64|
        k != id && #[trigger] index.contains_key(k) ==> changed.contains_key(k) && changed[k]
            == index[k]
}

/// Whether no order of the side has the given identifier.
pub open spec fn unlisted(levels: Levels, id: u64) -> bool {
    forall|p: u64| #[trigger] levels.contains_key(p) ==> absent(levels[p].orders, id)
}

/// A queue that holds no order of an identifier stays sound when the index
/// changes for that identifier alone.
pub proof fn lemma_queue_ok_off(
    index: Index,
    changed: Index,
    id: u64,
    market_id: Seq<char>,
    outcome_id: Seq<char>,
    side: Side,
    price: u64,
    orders: Seq<OrderView>,
)
    requires
        queue_ok(index, market_id, outcome_id, side, price, orders),
        agrees_off(index, changed, id),
        absent(orders, id),
    ensures
        queue_ok(changed, market_id, outcome_id, side, price, orders),
{
    assert forall|i: int| 0 <= i < orders.len() implies resident_ok(
        changed,
        market_id,
        outcome_id,
        side,
        price,
        #[trigger] orders[i],
    ) by {
        assert(resident_ok(index, market_id, outcome_id, side, price, orders[i]));
        assert(index.contains_key(orders[i].id));
    }
}

/// A side that holds no order of an identifier stays sound when the index
/// changes for that identifier alone.
pub proof fn lemma_side_wf_off(
    index: Index,
    changed: Index,
    id: u64,
    market_id: Seq<char>,
    outcome_id: Seq<char>,
    side: Side,
    levels: Levels,
)
    requires
        side_wf(index, market_id, outcome_id, side, levels),
        agrees_off(index, changed, id),
        unlisted(levels, id),
    ensures
        side_wf(changed, market_id, outcome_id, side, levels),
{
    assert forall|p: u64| #[trigger] levels.contains_key(p) implies level_wf(
        changed,
        market_id,
        outcome_id,
        side,
        p,
        levels[p],
    ) by {
        lemma_queue_ok_off(
            index,
            changed,
            id,
            market_id,
            outcome_id,
            side,
            p,
            levels[p].orders,
        );
    }
}

/// An order that the index has at one price rests at no other price of a
/// sound side.
pub proof fn lemma_unlisted_elsewhere(
    index: Index,
    market_id: Seq<char>,
    outcome_id: Seq<char>,
    side: Side,
    levels: Levels,
    id: u64,
    price: u64,
)
    requires
        side_wf(index, market_id, outcome_id, side, levels),
        index.contains_key(id) ==> index[id].price == price,
        levels.contains_key(price) ==> absent(levels[price].orders, id),
    ensures
        unlisted(levels, id),
{
    assert forall|p: u64| #[trigger] levels.contains_key(p) implies absent(
        levels[p].orders,
        id,
    ) by {
        if p != price {
            assert forall|i: int| 0 <= i < levels[p].orders.len() implies (
            #[trigger] levels[p].orders[i]).id != id by {
                assert(resident_ok(
                    index,
                    market_id,
                    outcome_id,
                    side,
                    p,
                    levels[p].orders[i],
                ));
            }
        }
    }
}

/// No identifier rests on both sides, whichever side is named first.
pub proof fn lemma_disjoint_sides_symmetric(bids: Levels, asks: Levels)
    requires
        disjoint_sides(bids, asks),
    ensures
        disjoint_sides(asks, bids),
{
    assert forall|p: u64, i: int|
        #![trigger asks[p].orders[i]]
        asks.contains_key(p) && bids.contains_key(p) && 0 <= i < asks[p].orders.len() implies absent(
        bids[p].orders,
        asks[p].orders[i].id,
    ) by {
        assert forall|j: int| 0 <= j < bids[p].orders.len() implies (
        #[trigger] bids[p].orders[j]).id != asks[p].orders[i].id by {
            assert(absent(asks[p].orders, bids[p].orders[j].id));
        }
    }
}

/// Whether a level taken out of its side, the rest of that side and the side
/// across are sound together under the index: the two sides are, no
/// identifier rests on both, the level's orders may rest together, its total
/// is their sum, and none of them rests across.
pub open spec fn detached_ok(
    index: Index,
    market_id: Seq<char>,
    outcome_id: Seq<char>,
    side: Side,
    price: u64,
    level: LevelView,
    others: Levels,
    across: Levels,
) -> bool {
    &&& side_wf(index, market_id, outcome_id, side, others)
    &&& side_wf(index, market_id, outcome_id, other_side(side), across)
    &&& disjoint_sides(others, across)
    &&& index.dom().finite()
    &&& !others.contains_key(price)
    &&& level.total_quantity == sum_remaining(level.orders)
    &&& queue_ok(index, market_id, outcome_id, side, price, level.orders)
    &&& across.contains_key(price) ==> forall|i: int|
        0 <= i < level.orders.len() ==> absent(
            across[price].orders,
            (#[trigger] level.orders[i]).id,
        )
}

/// Dropping the oldest order of a detached level keeps all sound.
pub proof fn lemma_pop_front_ok(
    index: Index,
    market_id: Seq<char>,
    outcome_id: Seq<char>,
    side: Side,
    price: u64,
    level: LevelView,
    others: Levels,
    across: Levels,
)
    requires
        detached_ok(index, market_id, outcome_id, side, price, level, others, across),
        level.orders.len() > 0,
    ensures
        detached_ok(
            index,
            market_id,
            outcome_id,
            side,
            price,
            pop_front(level),
            others,
            across,
        ),
{
    let after = pop_front(level);
    assert forall|i: int| 0 <= i < after.orders.len() implies resident_ok(
        index,
        market_id,
        outcome_id,
        side,
        price,
        #[trigger] after.orders[i],
    ) by {
        assert(after.orders[i] == level.orders[i + 1]);
    }
    assert forall|i: int, j: int| 0 <= i < j < after.orders.len() implies (
    #[trigger] after.orders[i]).id != (#[trigger] after.orders[j]).id by {
        assert(after.orders[i] == level.orders[i + 1]);
        assert(after.orders[j] == level.orders[j + 1]);
    }
    if across.contains_key(price) {
        assert forall|i: int| 0 <= i < after.orders.len() implies absent(
            across[price].orders,
            (#[trigger] after.orders[i]).id,
        ) by {
            assert(after.orders[i] == level.orders[i + 1]);
        }
    }
}

/// A fill of the oldest order of a detached level keeps all sound.
pub proof fn lemma_fill_front_ok(
    market_id: Seq<char>,
    outcome_id: Seq<char>,
    side: Side,
    price: u64,
    s: LevelMatching,
    others: Levels,
    across: Levels,
)
    requires
        detached_ok(s.index, market_id, outcome_id, side, price, s.level, others, across),
        s.level.orders.len() > 0,
        !is_cancelled(s.index, s.level.orders[0].id),
    ensures
        detached_ok(
            fill_front(s).index,
            market_id,
            outcome_id,
            side,
            price,
            fill_front(s).level,
            others,
            across,
        ),
{
    let maker = s.level.orders[0];
    let after = fill_front(s);
    let tail = s.level.orders.drop_first();
    assert(resident_ok(s.index, market_id, outcome_id, side, price, maker));
    assert(agrees_off(s.index, after.index, maker.id));
    assert(after.index.dom() =~= s.index.dom());
    // no other order anywhere carries the maker's identifier
    lemma_unlisted_elsewhere(s.index, market_id, outcome_id, side, others, maker.id, price);
    lemma_unlisted_elsewhere(
        s.index,
        market_id,
        outcome_id,
        other_side(side),
        across,
        maker.id,
        price,
    );
    lemma_side_wf_off(s.index, after.index, maker.id, market_id, outcome_id, side, others);
    lemma_side_wf_off(
        s.index,
        after.index,
        maker.id,
        market_id,
        outcome_id,
        other_side(side),
        across,
    );
    assert(absent(tail, maker.id)) by {
        assert forall|i: int| 0 <= i < tail.len() implies (#[trigger] tail[i]).id
            != maker.id by {
            assert(tail[i] == s.level.orders[i + 1]);
        }
    }
    assert(queue_ok(s.index, market_id, outcome_id, side, price, tail)) by {
        assert forall|i: int| 0 <= i < tail.len() implies resident_ok(
            s.index,
            market_id,
            outcome_id,
            side,
            price,
            #[trigger] tail[i],
        ) by {
            assert(tail[i] == s.level.orders[i + 1]);
        }
        assert forall|i: int, j: int| 0 <= i < j < tail.len() implies (#[trigger] tail[i]).id
            != (#[trigger] tail[j]).id by {
            assert(tail[i] == s.level.orders[i + 1]);
            assert(tail[j] == s.level.orders[j + 1]);
        }
    }
    lemma_queue_ok_off(
        s.index,
        after.index,
        maker.id,
        market_id,
        outcome_id,
        side,
        price,
        tail,
    );
    let orders = after.level.orders;
    if orders.len() == tail.len() {
        assert(orders =~= tail);
    } else {
        assert(orders.drop_first() =~= tail);
        assert forall|i: int| 0 <= i < orders.len() implies resident_ok(
            after.index,
            market_id,
            outcome_id,
            side,
            price,
            #[trigger] orders[i],
        ) by {
            if i > 0 {
                assert(orders[i] == tail[i - 1]);
            }
        }
        assert forall|i: int, j: int| 0 <= i < j < orders.len() implies (#[trigger] orders[i]).id
            != (#[trigger] orders[j]).id by {
            assert(orders[j] == tail[j - 1]);
            if i > 0 {
                assert(orders[i] == tail[i - 1]);
            }
        }
    }
    if across.contains_key(price) {
        assert forall|i: int| 0 <= i < orders.len() implies absent(
            across[price].orders,
            (#[trigger] orders[i]).id,
        ) by {
            if orders.len() == tail.len() {
                assert(orders[i] == s.level.orders[i + 1]);
            } else {
                assert(orders[i].id == s.level.orders[i].id);
            }
        }
    }
}

/// Matching against a detached level keeps all sound.
pub proof fn lemma_match_level_ok(
    taker_user: Seq<char>,
    market_id: Seq<char>,
    outcome_id: Seq<char>,
    side: Side,
    price: u64,
    s: LevelMatching,
    others: Levels,
    across: Levels,
)
    requires
        detached_ok(s.index, market_id, outcome_id, side, price, s.level, others, across),
    ensures
        detached_ok(
            match_level(taker_user, s).index,
            market_id,
            outcome_id,
            side,
            price,
            match_level(taker_user, s).level,
            others,
            across,
        ),
        match_level(taker_user, s).index.dom() == s.index.dom(),
    decreases s.level.orders.len(),
{
    if s.remaining == 0 || s.level.orders.len() == 0 {
    } else if is_cancelled(s.index, s.level.orders[0].id) {
        lemma_pop_front_ok(
            s.index,
            market_id,
            outcome_id,
            side,
            price,
            s.level,
            others,
            across,
        );
        lemma_match_level_ok(
            taker_user,
            market_id,
            outcome_id,
            side,
            price,
            LevelMatching { level: pop_front(s.level), ..s },
            others,
            across,
        );
    } else if s.level.orders[0].user_id == taker_user {
    } else {
        lemma_fill_front_ok(market_id, outcome_id, side, price, s, others, across);
        assert(fill_front(s).index.dom() =~= s.index.dom());
        if s.level.orders[0].remaining_quantity <= s.remaining {
            lemma_match_level_ok(
                taker_user,
                market_id,
                outcome_id,
                side,
                price,
                fill_front(s),
                others,
                across,
            );
        }
    }
}

/// Whether a side and the side across are sound together under the index.
pub open spec fn pair_ok(
    index: Index,
    market_id: Seq<char>,
    outcome_id: Seq<char>,
    side: Side,
    levels: Levels,
    across: Levels,
) -> bool {
    &&& side_wf(index, market_id, outcome_id, side, levels)
    &&& side_wf(index, market_id, outcome_id, other_side(side), across)
    &&& disjoint_sides(levels, across)
    &&& index.dom().finite()
}

/// A sound book is a sound pair of sides, whichever side is named first.
pub proof fn lemma_sound_is_pair_ok(book: BookView, side: Side)
    ensures
        book.sound() <==> pair_ok(
            book.index,
            book.market_id,
            book.outcome_id,
            side,
            book.own(side),
            book.opposite(side),
        ),
{
    if book.sound() {
        lemma_disjoint_sides_symmetric(book.bids, book.asks);
    }
    if pair_ok(
        book.index,
        book.market_id,
        book.outcome_id,
        side,
        book.own(side),
        book.opposite(side),
    ) {
        lemma_disjoint_sides_symmetric(book.own(side), book.opposite(side));
    }
}

/// Matching against a side keeps both sides sound, and the index knows the
/// same orders after it as before.
pub proof fn lemma_match_side_ok(
    taker: OrderView,
    market_id: Seq<char>,
    outcome_id: Seq<char>,
    s: Matching,
    across: Levels,
)
    requires
        pair_ok(s.index, market_id, outcome_id, other_side(taker.side), s.levels, across),
    ensures
        pair_ok(
            match_side(taker, s).index,
            market_id,
            outcome_id,
            other_side(taker.side),
            match_side(taker, s).levels,
            across,
        ),
        match_side(taker, s).index.dom() == s.index.dom(),
    decreases s.levels.dom().len(),
{
    let side = other_side(taker.side);
    if s.remaining != 0 {
        match best_price(s.levels, taker.side) {
            None => {},
            Some(p) => {
                if crosses(taker.side, taker.price, p) {
                    assert(is_best(s.levels, taker.side, p));
                    let start = LevelMatching {
                        level: s.levels[p],
                        index: s.index,
                        remaining: s.remaining,
                        fills: s.fills,
                        blocked: false,
                    };
                    let others = s.levels.remove(p);
                    assert(detached_ok(
                        s.index,
                        market_id,
                        outcome_id,
                        side,
                        p,
                        start.level,
                        others,
                        across,
                    )) by {
                        assert(level_wf(s.index, market_id, outcome_id, side, p, s.levels[p]));
                        assert forall|q: u64| #[trigger] others.contains_key(q) implies level_wf(
                            s.index,
                            market_id,
                            outcome_id,
                            side,
                            q,
                            others[q],
                        ) by {
                            assert(s.levels.contains_key(q));
                        }
                        assert forall|q: u64, i: int|
                            #![trigger others[q].orders[i]]
                            others.contains_key(q) && across.contains_key(q) && 0 <= i
                                < others[q].orders.len() implies absent(
                            across[q].orders,
                            others[q].orders[i].id,
                        ) by {
                            assert(others[q].orders[i] == s.levels[q].orders[i]);
                        }
                        if across.contains_key(p) {
                            assert forall|i: int| 0 <= i < start.level.orders.len() implies absent(
                                across[p].orders,
                                (#[trigger] start.level.orders[i]).id,
                            ) by {
                                assert(start.level.orders[i] == s.levels[p].orders[i]);
                            }
                        }
                    }
                    lemma_match_level_ok(
                        taker.user_id,
                        market_id,
                        outcome_id,
                        side,
                        p,
                        start,
                        others,
                        across,
                    );
                    let r = match_level(taker.user_id, start);
                    if r.level.orders.len() == 0 {
                        lemma_match_side_ok(
                            taker,
                            market_id,
                            outcome_id,
                            Matching {
                                levels: others,
                                index: r.index,
                                remaining: r.remaining,
                                fills: r.fills,
                                blocked: false,
                            },
                            across,
                        );
                    } else {
                        let after = s.levels.insert(p, r.level);
                        assert forall|q: u64| #[trigger] after.contains_key(q) implies level_wf(
                            r.index,
                            market_id,
                            outcome_id,
                            side,
                            q,
                            after[q],
                        ) by {
                            if q != p {
                                assert(others.contains_key(q));
                            }
                        }
                        assert forall|q: u64, i: int|
                            #![trigger after[q].orders[i]]
                            after.contains_key(q) && across.contains_key(q) && 0 <= i
                                < after[q].orders.len() implies absent(
                            across[q].orders,
                            after[q].orders[i].id,
                        ) by {
                            if q != p {
                                assert(others.contains_key(q));
                                assert(after[q].orders[i] == others[q].orders[i]);
                            } else {
                                assert(after[q].orders[i] == r.level.orders[i]);
                            }
                        }
                    }
                }
            },
        }
    }
}

/// Matching an order keeps a sound book sound, and the index knows the same
/// orders after it as before.
pub proof fn lemma_after_matching_sound(book: BookView, order: OrderView)
    requires
        book.sound(),
    ensures
        book.after_matching(order).sound(),
        book.after_matching(order).index.dom() == book.index.dom(),
        book.after_matching(order).own(order.side) == book.own(order.side),
        book.after_matching(order).market_id == book.market_id,
        book.after_matching(order).outcome_id == book.outcome_id,
{
    let side = other_side(order.side);
    lemma_sound_is_pair_ok(book, side);
    let start = Matching {
        levels: book.opposite(order.side),
        index: book.index,
        remaining: order.remaining_quantity,
        fills: Seq::empty(),
        blocked: false,
    };
    assert(book.own(side) == book.opposite(order.side));
    assert(book.opposite(side) == book.own(order.side));
    lemma_match_side_ok(order, book.market_id, book.outcome_id, start, book.own(order.side));
    let after = book.after_matching(order);
    assert(after.own(side) == book.matched(order).levels);
    assert(after.opposite(side) == book.own(order.side));
    lemma_sound_is_pair_ok(after, side);
}

/// An order that the index does not know rests nowhere on a sound side.
pub proof fn lemma_unknown_is_unlisted(
    index: Index,
    market_id: Seq<char>,
    outcome_id: Seq<char>,
    side: Side,
    levels: Levels,
    id: u64,
)
    requires
        side_wf(index, market_id, outcome_id, side, levels),
        !index.contains_key(id),
    ensures
        unlisted(levels, id),
{
    assert forall|p: u64| #[trigger] levels.contains_key(p) implies absent(
        levels[p].orders,
        id,
    ) by {
        assert forall|i: int| 0 <= i < levels[p].orders.len() implies (
        #[trigger] levels[p].orders[i]).id != id by {
            assert(resident_ok(index, market_id, outcome_id, side, p, levels[p].orders[i]));
        }
    }
}

/// Whether the order may be put to rest in the book: the index does not know
/// it, it is of the book's market and outcome, something remains of it, its
/// status is one that can trade, and the total of its level can take it.
pub open spec fn may_rest(book: BookView, order: OrderView) -> bool {
    &&& !book.index.contains_key(order.id)
    &&& order.market_id == book.market_id
    &&& order.outcome_id == book.outcome_id
    &&& order.remaining_quantity > 0
    &&& is_active(order.status)
    &&& level_total(book.own(order.side), order.price) + order.remaining_quantity <= u64::MAX
}

/// Putting such an order to rest keeps a sound book sound.
pub proof fn lemma_with_resting_sound(book: BookView, order: OrderView)
    requires
        book.sound(),
        may_rest(book, order),
    ensures
        book.with_resting(order).sound(),
{
    let after = book.with_resting(order);
    let side = order.side;
    let own = book.own(side);
    let across = book.opposite(side);
    lemma_sound_is_pair_ok(book, side);
    lemma_unknown_is_unlisted(book.index, book.market_id, book.outcome_id, side, own, order.id);
    lemma_unknown_is_unlisted(
        book.index,
        book.market_id,
        book.outcome_id,
        other_side(side),
        across,
        order.id,
    );
    assert(agrees_off(book.index, after.index, order.id));
    lemma_side_wf_off(
        book.index,
        after.index,
        order.id,
        book.market_id,
        book.outcome_id,
        side,
        own,
    );
    lemma_side_wf_off(
        book.index,
        after.index,
        order.id,
        book.market_id,
        book.outcome_id,
        other_side(side),
        across,
    );
    let rested = rest(own, order);
    let before = if own.contains_key(order.price) {
        own[order.price]
    } else {
        crate::model::empty_level()
    };
    let level = push_back(before, order);
    assert(rested == own.insert(order.price, level));
    lemma_sum_push(before.orders, order);
    assert(sum_remaining(before.orders) == before.total_quantity) by {
        if own.contains_key(order.price) {
            assert(level_wf(
                book.index,
                book.market_id,
                book.outcome_id,
                side,
                order.price,
                own[order.price],
            ));
        }
    }
    assert(absent(before.orders, order.id));
    assert(queue_ok(
        after.index,
        book.market_id,
        book.outcome_id,
        side,
        order.price,
        before.orders,
    )) by {
        if own.contains_key(order.price) {
            assert(level_wf(
                after.index,
                book.market_id,
                book.outcome_id,
                side,
                order.price,
                own[order.price],
            ));
        }
    }
    assert(level_wf(after.index, book.market_id, book.outcome_id, side, order.price, level)) by {
        assert forall|i: int| 0 <= i < level.orders.len() implies resident_ok(
            after.index,
            book.market_id,
            book.outcome_id,
            side,
            order.price,
            #[trigger] level.orders[i],
        ) by {
            if i < before.orders.len() {
                assert(level.orders[i] == before.orders[i]);
            }
        }
        assert forall|i: int, j: int| 0 <= i < j < level.orders.len() implies (
        #[trigger] level.orders[i]).id != (#[trigger] level.orders[j]).id by {
            assert(level.orders[i] == before.orders[i]);
            if j < before.orders.len() {
                assert(level.orders[j] == before.orders[j]);
            }
        }
    }
    assert(side_wf(after.index, book.market_id, book.outcome_id, side, rested)) by {
        assert forall|q: u64| #[trigger] rested.contains_key(q) implies level_wf(
            after.index,
            book.market_id,
            book.outcome_id,
            side,
            q,
            rested[q],
        ) by {
            if q != order.price {
                assert(own.contains_key(q));
            }
        }
    }
    assert(disjoint_sides(rested, across)) by {
        assert forall|q: u64, i: int|
            #![trigger rested[q].orders[i]]
            rested.contains_key(q) && across.contains_key(q) && 0 <= i
                < rested[q].orders.len() implies absent(across[q].orders, rested[q].orders[i].id) by {
            if q != order.price {
                assert(own.contains_key(q));
                assert(rested[q].orders[i] == own[q].orders[i]);
            } else if i < before.orders.len() {
                assert(own.contains_key(q));
                assert(rested[q].orders[i] == own[q].orders[i]);
            } else {
                assert(rested[q].orders[i] == order);
            }
        }
    }
    assert(after.own(side) == rested);
    assert(after.opposite(side) == across);
    lemma_sound_is_pair_ok(after, side);
}

/// Entering an order that the index does not know, without putting it to
/// rest, keeps a sound book sound.
pub proof fn lemma_with_known_sound(book: BookView, order: OrderView)
    requires
        book.sound(),
        !book.index.contains_key(order.id),
    ensures
        book.with_known(order).sound(),
{
    let after = book.with_known(order);
    lemma_unknown_is_unlisted(
        book.index,
        book.market_id,
        book.outcome_id,
        Side::Buy,
        book.bids,
        order.id,
    );
    lemma_unknown_is_unlisted(
        book.index,
        book.market_id,
        book.outcome_id,
        Side::Sell,
        book.asks,
        order.id,
    );
    assert(agrees_off(book.index, after.index, order.id));
    lemma_side_wf_off(
        book.index,
        after.index,
        order.id,
        book.market_id,
        book.outcome_id,
        Side::Buy,
        book.bids,
    );
    lemma_side_wf_off(
        book.index,
        after.index,
        order.id,
        book.market_id,
        book.outcome_id,
        Side::Sell,
        book.asks,
    );
}

/// Accepting an order for which the book has room keeps what rests in the
/// book sound.
pub proof fn lemma_after_order_sound(book: BookView, order: OrderView)
    requires
        book.sound(),
        book.rejection(order) is None,
        book.has_room_for(order),
    ensures
        book.after_order(order).sound(),
{
    let m = book.matched(order);
    let matched = book.after_trades(order);
    let taker = settled(order, m.remaining);
    lemma_after_matching_sound(book, order);
    assert(matched.sound());
    assert(!matched.index.contains_key(order.id)) by {
        assert(!book.index.dom().contains(order.id));
    }
    if m.remaining > 0 {
        assert(may_rest(matched, taker));
        lemma_with_resting_sound(matched, taker);
    } else {
        lemma_with_known_sound(matched, taker);
    }
}

/// Accepting an order for which the book has room keeps a well-formed book
/// well formed.
pub proof fn lemma_after_order_wf(book: BookView, order: OrderView)
    requires
        book.wf(),
        book.rejection(order) is None,
        book.has_room_for(order),
    ensures
        book.after_order(order).wf(),
{
    lemma_after_order_sound(book, order);
}

/// Cancelling an order keeps a sound book sound and a well-formed book well
/// formed.
pub proof fn lemma_after_cancel_wf(book: BookView, id: u64)
    requires
        book.sound(),
    ensures
        book.after_cancel(id).sound(),
        book.wf() ==> book.after_cancel(id).wf(),
{
    let after = book.after_cancel(id);
    if book.cancel_result(id) is Ok {
        assert(after.index.dom() =~= book.index.dom());
        assert forall|p: u64| #[trigger] after.bids.contains_key(p) implies level_wf(
            after.index,
            after.market_id,
            after.outcome_id,
            Side::Buy,
            p,
            after.bids[p],
        ) by {
            assert(level_wf(
                book.index,
                book.market_id,
                book.outcome_id,
                Side::Buy,
                p,
                book.bids[p],
            ));
            assert forall|i: int| 0 <= i < book.bids[p].orders.len() implies resident_ok(
                after.index,
                after.market_id,
                after.outcome_id,
                Side::Buy,
                p,
                #[trigger] book.bids[p].orders[i],
            ) by {
                assert(resident_ok(
                    book.index,
                    book.market_id,
                    book.outcome_id,
                    Side::Buy,
                    p,
                    book.bids[p].orders[i],
                ));
            }
        }
        assert forall|p: u64| #[trigger] after.asks.contains_key(p) implies level_wf(
            after.index,
            after.market_id,
            after.outcome_id,
            Side::Sell,
            p,
            after.asks[p],
        ) by {
            assert(level_wf(
                book.index,
                book.market_id,
                book.outcome_id,
                Side::Sell,
                p,
                book.asks[p],
            ));
            assert forall|i: int| 0 <= i < book.asks[p].orders.len() implies resident_ok(
                after.index,
                after.market_id,
                after.outcome_id,
                Side::Sell,
                p,
                #[trigger] book.asks[p].orders[i],
            ) by {
                assert(resident_ok(
                    book.index,
                    book.market_id,
                    book.outcome_id,
                    Side::Sell,
                    p,
                    book.asks[p].orders[i],
                ));
            }
        }
    }
}

/// What stays of a sound queue when the orders of one identifier leave it
/// may rest together, holds no order of that identifier, and holds only
/// orders of the queue.
pub proof fn lemma_filter_queue_ok(
    index: Index,
    market_id: Seq<char>,
    outcome_id: Seq<char>,
    side: Side,
    price: u64,
    orders: Seq<OrderView>,
    id: u64,
)
    requires
        queue_ok(index, market_id, outcome_id, side, price, orders),
    ensures
        ({
            let kept = orders.filter(|o: OrderView| o.id != id);
            &&& queue_ok(index, market_id, outcome_id, side, price, kept)
            &&& absent(kept, id)
            &&& forall|i: int|
                0 <= i < kept.len() ==> exists|j: int|
                    0 <= j < orders.len() && orders[j] == #[trigger] kept[i]
        }),
    decreases orders.len(),
{
    reveal(Seq::filter);
    let keep = |o: OrderView| o.id != id;
    let kept = orders.filter(keep);
    if orders.len() > 0 {
        let front = orders.drop_last();
        let last = orders.last();
        assert(queue_ok(index, market_id, outcome_id, side, price, front)) by {
            assert forall|i: int| 0 <= i < front.len() implies resident_ok(
                index,
                market_id,
                outcome_id,
                side,
                price,
                #[trigger] front[i],
            ) by {
                assert(front[i] == orders[i]);
            }
            assert forall|i: int, j: int| 0 <= i < j < front.len() implies (#[trigger] front[i]).id
                != (#[trigger] front[j]).id by {
                assert(front[i] == orders[i]);
                assert(front[j] == orders[j]);
            }
        }
        lemma_filter_queue_ok(index, market_id, outcome_id, side, price, front, id);
        let before = front.filter(keep);
        assert forall|i: int| 0 <= i < kept.len() implies exists|j: int|
            0 <= j < orders.len() && orders[j] == #[trigger] kept[i] by {
            if i < before.len() {
                assert(kept[i] == before[i]);
                let j = choose|j: int| 0 <= j < front.len() && front[j] == before[i];
                assert(orders[j] == kept[i]);
            } else {
                assert(orders[orders.len() - 1] == kept[i]);
            }
        }
        assert forall|i: int| 0 <= i < kept.len() implies resident_ok(
            index,
            market_id,
            outcome_id,
            side,
            price,
            #[trigger] kept[i],
        ) by {
            let j = choose|j: int| 0 <= j < orders.len() && orders[j] == kept[i];
            assert(resident_ok(index, market_id, outcome_id, side, price, orders[j]));
        }
        assert forall|i: int, j: int| 0 <= i < j < kept.len() implies (#[trigger] kept[i]).id != (
        #[trigger] kept[j]).id by {
            if j < before.len() {
                assert(kept[i] == before[i]);
                assert(kept[j] == before[j]);
            } else {
                assert(kept[i] == before[i]);
                let k = choose|k: int| 0 <= k < front.len() && front[k] == before[i];
                assert(orders[k] == kept[i]);
                assert(kept[j] == orders[orders.len() - 1]);
            }
        }
    }
}

/// Taking the orders of one identifier out of the level at a price keeps a
/// sound side sound, leaves no order of that identifier at that price, and
/// leaves only orders that were there.
pub proof fn lemma_purge_ok(
    index: Index,
    market_id: Seq<char>,
    outcome_id: Seq<char>,
    side: Side,
    levels: Levels,
    price: u64,
    id: u64,
)
    requires
        side_wf(index, market_id, outcome_id, side, levels),
    ensures
        side_wf(index, market_id, outcome_id, side, purge(levels, price, id)),
        purge(levels, price, id).contains_key(price) ==> absent(
            purge(levels, price, id)[price].orders,
            id,
        ),
        forall|q: u64, i: int|
            #![trigger purge(levels, price, id)[q].orders[i]]
            purge(levels, price, id).contains_key(q) && 0 <= i < purge(
                levels,
                price,
                id,
            )[q].orders.len() ==> levels.contains_key(q) && exists|j: int|
                0 <= j < levels[q].orders.len() && levels[q].orders[j] == purge(
                    levels,
                    price,
                    id,
                )[q].orders[i],
{
    let after = purge(levels, price, id);
    if levels.contains_key(price) {
        let level = levels[price];
        let kept = without_order(level, id);
        assert(level_wf(index, market_id, outcome_id, side, price, level));
        lemma_filter_queue_ok(index, market_id, outcome_id, side, price, level.orders, id);
        lemma_sum_filter(level.orders, |o: OrderView| o.id != id);
        assert forall|q: u64| #[trigger] after.contains_key(q) implies level_wf(
            index,
            market_id,
            outcome_id,
            side,
            q,
            after[q],
        ) by {
            if q != price {
                assert(levels.contains_key(q));
            }
        }
        assert forall|q: u64, i: int|
            #![trigger after[q].orders[i]]
            after.contains_key(q) && 0 <= i < after[q].orders.len() implies levels.contains_key(q)
            && exists|j: int|
            0 <= j < levels[q].orders.len() && levels[q].orders[j] == after[q].orders[i] by {
            if q != price {
                assert(levels[q].orders[i] == after[q].orders[i]);
            } else {
                assert(after[q].orders[i] == kept.orders[i]);
            }
        }
    } else {
        assert forall|q: u64, i: int|
            #![trigger after[q].orders[i]]
            after.contains_key(q) && 0 <= i < after[q].orders.len() implies levels.contains_key(q)
            && exists|j: int|
            0 <= j < levels[q].orders.len() && levels[q].orders[j] == after[q].orders[i] by {
            assert(levels[q].orders[i] == after[q].orders[i]);
        }
    }
}

/// The cleanup of an order keeps a sound book sound.
pub proof fn lemma_after_cleanup_wf(book: BookView, id: u64)
    requires
        book.sound(),
    ensures
        book.after_cleanup(id).sound(),
        book.wf() ==> book.after_cleanup(id).wf(),
{
    let after = book.after_cleanup(id);
    if is_cancelled(book.index, id) {
        let price = book.index[id].price;
        let market_id = book.market_id;
        let outcome_id = book.outcome_id;
        lemma_purge_ok(book.index, market_id, outcome_id, Side::Buy, book.bids, price, id);
        lemma_purge_ok(book.index, market_id, outcome_id, Side::Sell, book.asks, price, id);
        lemma_unlisted_elsewhere(
            book.index,
            market_id,
            outcome_id,
            Side::Buy,
            after.bids,
            id,
            price,
        );
        lemma_unlisted_elsewhere(
            book.index,
            market_id,
            outcome_id,
            Side::Sell,
            after.asks,
            id,
            price,
        );
        assert(agrees_off(book.index, after.index, id));
        lemma_side_wf_off(
            book.index,
            after.index,
            id,
            market_id,
            outcome_id,
            Side::Buy,
            after.bids,
        );
        lemma_side_wf_off(
            book.index,
            after.index,
            id,
            market_id,
            outcome_id,
            Side::Sell,
            after.asks,
        );
        assert(disjoint_sides(after.bids, after.asks)) by {
            assert forall|q: u64, i: int|
                #![trigger after.bids[q].orders[i]]
                after.bids.contains_key(q) && after.asks.contains_key(q) && 0 <= i
                    < after.bids[q].orders.len() implies absent(
                after.asks[q].orders,
                after.bids[q].orders[i].id,
            ) by {
                let b = choose|b: int|
                    0 <= b < book.bids[q].orders.len() && book.bids[q].orders[b]
                        == after.bids[q].orders[i];
                assert(absent(book.asks[q].orders, book.bids[q].orders[b].id));
                assert forall|j: int| 0 <= j < after.asks[q].orders.len() implies (
                #[trigger] after.asks[q].orders[j]).id != after.bids[q].orders[i].id by {
                    let a = choose|a: int|
                        0 <= a < book.asks[q].orders.len() && book.asks[q].orders[a]
                            == after.asks[q].orders[j];
                    assert(book.asks[q].orders[a].id != book.bids[q].orders[b].id);
                }
            }
        }
    }
}

/// A sound level from which no order of the given identifier can be taken
/// is what it was after the attempt.
pub proof fn lemma_without_absent(level: LevelView, id: u64)
    requires
        absent(level.orders, id),
        level.total_quantity == sum_remaining(level.orders),
    ensures
        without_order(level, id) == level,
{
    lemma_filter_keeps_all(level.orders, |o: OrderView| o.id != id);
}

/// A side that holds no order of the given identifier is what it was after
/// an attempt to take one out of it.
pub proof fn lemma_purge_unlisted(
    index: Index,
    market_id: Seq<char>,
    outcome_id: Seq<char>,
    side: Side,
    levels: Levels,
    price: u64,
    id: u64,
)
    requires
        side_wf(index, market_id, outcome_id, side, levels),
        unlisted(levels, id),
    ensures
        purge(levels, price, id) == levels,
{
    if levels.contains_key(price) {
        assert(level_wf(index, market_id, outcome_id, side, price, levels[price]));
        lemma_without_absent(levels[price], id);
        assert(purge(levels, price, id) =~= levels);
    }
}

} // verus!
