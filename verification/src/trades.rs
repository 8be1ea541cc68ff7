//! What matching does to the taker and what the fills it makes are like.

use vstd::prelude::*;
use crate::invariants::{
    detached_ok, lemma_fill_front_ok, lemma_match_level_ok, lemma_pop_front_ok, other_side,
    pair_ok,
};
use crate::lemmas::lemma_volume_push;
use crate::model::{
    absent, active_ids, best_price, crosses, fill_front, index_follows, is_active,
    is_best, is_cancelled,
    level_wf, match_level,
    match_side, pop_front, resident_ok, volume, BookView, Fill, Index, LevelMatching, Levels,
    Matching,
};
use crate::types::{OrderView, Side};

verus! {

/// Whether a fill is one that matching the taker against a sound book can
/// make: it trades something, with another user, in the book's market and
/// outcome, at the price at which the index has the maker, and that price
/// is one that the taker accepts.
pub open spec fn sound_fill(book: BookView, taker: OrderView, fill: Fill) -> bool {
    &&& fill.quantity > 0
    &&& fill.maker_user_id != taker.user_id
    &&& fill.market_id == book.market_id
    &&& fill.outcome_id == book.outcome_id
    &&& book.index.contains_key(fill.maker_order_id)
    &&& book.index[fill.maker_order_id].price == fill.price
    &&& crosses(taker.side, taker.price, fill.price)
}

/// Whether every one of the fills is sound.
pub open spec fn sound_fills(book: BookView, taker: OrderView, fills: Seq<Fill>) -> bool {
    forall|i: int| 0 <= i < fills.len() ==> sound_fill(book, taker, #[trigger] fills[i])
}

/// The fills so far and the orders that can still trade, counted together.
/// A fill that exhausts its maker takes one from the second and adds one to
/// the first; only the last fill of a taker can leave its maker able to
/// trade.
pub open spec fn counted(fills: Seq<Fill>, index: Index) -> nat {
    fills.len() + active_ids(index).len()
}

/// The orders of a finite index that can still trade are finitely many, and
/// no more than the index has.
pub proof fn lemma_active_ids_finite(index: Index)
    requires
        index.dom().finite(),
    ensures
        active_ids(index).finite(),
        active_ids(index).len() <= index.dom().len(),
{
    index.dom().lemma_len_filter(|id: u64| is_active(index[id].status));
}

/// Whether the two indexes know the same orders at the same prices.
pub open spec fn same_prices(index: Index, other: Index) -> bool {
    &&& index.dom() == other.dom()
    &&& forall|k: u64| #[trigger] index.contains_key(k) ==> index[k].price == other[k].price
}

/// Matching against a detached level makes sound fills only, takes from the
/// taker what the fills add up to, and ends with the taker exhausted, the
/// level empty, or an order of the taker's own user at the front.
pub proof fn lemma_match_level_trades(
    book: BookView,
    taker: OrderView,
    price: u64,
    s: LevelMatching,
    others: Levels,
    across: Levels,
)
    requires
        detached_ok(
            s.index,
            book.market_id,
            book.outcome_id,
            other_side(taker.side),
            price,
            s.level,
            others,
            across,
        ),
        same_prices(book.index, s.index),
        crosses(taker.side, taker.price, price),
        sound_fills(book, taker, s.fills),
        !s.blocked,
    ensures
        ({
            let r = match_level(taker.user_id, s);
            &&& sound_fills(book, taker, r.fills)
            &&& same_prices(book.index, r.index)
            &&& index_follows(s.index, r.index)
            &&& volume(r.fills) + r.remaining == volume(s.fills) + s.remaining
            &&& r.fills.len() >= s.fills.len()
            &&& r.remaining == 0 || r.blocked || r.level.orders.len() == 0
            &&& r.blocked ==> r.remaining > 0 && r.level.orders.len() > 0
            &&& counted(r.fills, r.index) <= counted(s.fills, s.index) || (counted(
                r.fills,
                r.index,
            ) <= counted(s.fills, s.index) + 1 && r.level.orders.len() > 0 && active_ids(
                r.index,
            ).len() >= 1)
        }),
    decreases s.level.orders.len(),
{
    let side = other_side(taker.side);
    lemma_active_ids_finite(s.index);
    if s.remaining == 0 || s.level.orders.len() == 0 {
    } else if is_cancelled(s.index, s.level.orders[0].id) {
        lemma_pop_front_ok(
            s.index,
            book.market_id,
            book.outcome_id,
            side,
            price,
            s.level,
            others,
            across,
        );
        lemma_match_level_trades(
            book,
            taker,
            price,
            LevelMatching { level: pop_front(s.level), ..s },
            others,
            across,
        );
    } else if s.level.orders[0].user_id == taker.user_id {
    } else {
        let maker = s.level.orders[0];
        let after = fill_front(s);
        assert(resident_ok(s.index, book.market_id, book.outcome_id, side, price, maker));
        lemma_fill_front_ok(book.market_id, book.outcome_id, side, price, s, others, across);
        lemma_volume_push(s.fills, after.fills.last());
        assert(after.index.dom() =~= s.index.dom());
        assert(same_prices(book.index, after.index));
        assert(active_ids(s.index).contains(maker.id));
        assert(active_ids(s.index).remove(maker.id).len() + 1 == active_ids(s.index).len());
        if maker.remaining_quantity <= s.remaining {
            assert(active_ids(after.index) =~= active_ids(s.index).remove(maker.id));
        } else {
            assert(active_ids(after.index) =~= active_ids(s.index));
        }
        assert(sound_fills(book, taker, after.fills)) by {
            assert forall|i: int| 0 <= i < after.fills.len() implies sound_fill(
                book,
                taker,
                #[trigger] after.fills[i],
            ) by {
                if i < s.fills.len() {
                    assert(after.fills[i] == s.fills[i]);
                }
            }
        }
        if maker.remaining_quantity <= s.remaining {
            lemma_match_level_trades(book, taker, price, after, others, across);
        }
    }
}

/// Matching against a side makes sound fills only, takes from the taker
/// what the fills add up to, keeps to the levels that were there, and,
/// unless it ends with the taker exhausted or stopped by an order of its own
/// user, leaves no level that the taker's price crosses.
pub proof fn lemma_match_side_trades(
    book: BookView,
    taker: OrderView,
    s: Matching,
    across: Levels,
)
    requires
        pair_ok(
            s.index,
            book.market_id,
            book.outcome_id,
            other_side(taker.side),
            s.levels,
            across,
        ),
        same_prices(book.index, s.index),
        sound_fills(book, taker, s.fills),
        !s.blocked,
    ensures
        ({
            let r = match_side(taker, s);
            &&& sound_fills(book, taker, r.fills)
            &&& same_prices(book.index, r.index)
            &&& index_follows(s.index, r.index)
            &&& volume(r.fills) + r.remaining == volume(s.fills) + s.remaining
            &&& r.fills.len() >= s.fills.len()
            &&& forall|q: u64| #[trigger] r.levels.contains_key(q) ==> s.levels.contains_key(q)
            &&& r.remaining > 0 && !r.blocked ==> forall|q: u64| #[trigger]
                r.levels.contains_key(q) ==> !crosses(taker.side, taker.price, q)
            &&& r.blocked ==> r.remaining > 0 && exists|q: u64| #[trigger]
                r.levels.contains_key(q) && crosses(taker.side, taker.price, q)
            &&& counted(r.fills, r.index) <= counted(s.fills, s.index) || (counted(
                r.fills,
                r.index,
            ) <= counted(s.fills, s.index) + 1 && active_ids(r.index).len() >= 1)
        }),
    decreases s.levels.dom().len(),
{
    let side = other_side(taker.side);
    if s.remaining != 0 {
        match best_price(s.levels, taker.side) {
            None => {
                lemma_best_exists(s.levels, taker.side);
            },
            Some(p) => {
                assert(is_best(s.levels, taker.side, p));
                if crosses(taker.side, taker.price, p) {
                    let start = LevelMatching {
                        level: s.levels[p],
                        index: s.index,
                        remaining: s.remaining,
                        fills: s.fills,
                        blocked: false,
                    };
                    let others = s.levels.remove(p);
                    assert(detached_ok(
                        s.index,
                        book.market_id,
                        book.outcome_id,
                        side,
                        p,
                        start.level,
                        others,
                        across,
                    )) by {
                        assert(level_wf(
                            s.index,
                            book.market_id,
                            book.outcome_id,
                            side,
                            p,
                            s.levels[p],
                        ));
                        assert forall|q: u64| #[trigger] others.contains_key(q) implies level_wf(
                            s.index,
                            book.market_id,
                            book.outcome_id,
                            side,
                            q,
                            others[q],
                        ) by {
                            assert(s.levels.contains_key(q));
                        }
                        assert forall|q: u64, i: int|
                            #![trigger others[q].orders[i]]
                            others.contains_key(q) && across.contains_key(q) && 0 <= i
                                < others[q].orders.len() implies absent(
                            across[q].orders,
                            others[q].orders[i].id,
                        ) by {
                            assert(others[q].orders[i] == s.levels[q].orders[i]);
                        }
                        if across.contains_key(p) {
                            assert forall|i: int| 0 <= i < start.level.orders.len() implies absent(
                                across[p].orders,
                                (#[trigger] start.level.orders[i]).id,
                            ) by {
                                assert(start.level.orders[i] == s.levels[p].orders[i]);
                            }
                        }
                    }
                    lemma_match_level_ok(
                        taker.user_id,
                        book.market_id,
                        book.outcome_id,
                        side,
                        p,
                        start,
                        others,
                        across,
                    );
                    lemma_match_level_trades(book, taker, p, start, others, across);
                    let r = match_level(taker.user_id, start);
                    if r.level.orders.len() == 0 {
                        let next = Matching {
                            levels: others,
                            index: r.index,
                            remaining: r.remaining,
                            fills: r.fills,
                            blocked: false,
                        };
                        lemma_match_side_trades(book, taker, next, across);
                        let end = match_side(taker, next);
                        assert forall|q: u64| #[trigger] end.levels.contains_key(q) implies s.levels.contains_key(
                        q) by {
                            assert(others.contains_key(q));
                        }
                    } else {
                        let end = match_side(taker, s);
                        assert(end.levels == s.levels.insert(p, r.level));
                        if end.blocked {
                            assert(end.levels.contains_key(p));
                        }
                    }
                } else {
                    assert forall|q: u64| #[trigger] s.levels.contains_key(q) implies !crosses(
                        taker.side,
                        taker.price,
                        q,
                    ) by {}
                }
            },
        }
    }
}

/// A side with a level has a best price, for either kind of taker.
pub proof fn lemma_best_exists(levels: Levels, taker_side: Side)
    requires
        levels.dom().finite(),
    ensures
        best_price(levels, taker_side) is None ==> forall|q: u64| !levels.contains_key(q),
    decreases levels.dom().len(),
{
    if exists|k: u64| levels.contains_key(k) {
        let k = choose|k: u64| levels.contains_key(k);
        let others = levels.remove(k);
        lemma_best_exists(others, taker_side);
        match best_price(others, taker_side) {
            None => {
                assert(is_best(levels, taker_side, k)) by {
                    assert forall|q: u64| #[trigger] levels.contains_key(q) implies q == k by {
                        if q != k {
                            assert(others.contains_key(q));
                        }
                    }
                }
            },
            Some(p) => {
                assert(is_best(others, taker_side, p));
                let better = match taker_side {
                    Side::Buy => if k <= p {
                        k
                    } else {
                        p
                    },
                    Side::Sell => if k >= p {
                        k
                    } else {
                        p
                    },
                };
                assert(is_best(levels, taker_side, better)) by {
                    assert(others.contains_key(p));
                    assert forall|q: u64| #[trigger] levels.contains_key(q) implies match taker_side {
                        Side::Buy => better <= q,
                        Side::Sell => better >= q,
                    } by {
                        if q != k {
                            assert(others.contains_key(q));
                        }
                    }
                }
            },
        }
    }
}

/// Sound fills are no more than the units they trade.
pub proof fn lemma_count_below_volume(book: BookView, taker: OrderView, fills: Seq<Fill>)
    requires
        sound_fills(book, taker, fills),
    ensures
        fills.len() <= volume(fills),
    decreases fills.len(),
{
    if fills.len() > 0 {
        assert(sound_fills(book, taker, fills.drop_last())) by {
            assert forall|i: int| 0 <= i < fills.drop_last().len() implies sound_fill(
                book,
                taker,
                #[trigger] fills.drop_last()[i],
            ) by {
                assert(fills.drop_last()[i] == fills[i]);
            }
        }
        lemma_count_below_volume(book, taker, fills.drop_last());
        assert(sound_fill(book, taker, fills[fills.len() - 1]));
    }
}

} // verus!
