//! Facts about the sums that the model is built from.

use vstd::prelude::*;
use crate::model::{sum_remaining, volume, Fill};
use crate::types::OrderView;

verus! {

/// An order behind the others adds what it holds to the sum.
pub proof fn lemma_sum_push(orders: Seq<OrderView>, order: OrderView)
    ensures
        sum_remaining(orders.push(order)) == sum_remaining(orders) + order.remaining_quantity,
    decreases orders.len(),
{
    if orders.len() == 0 {
        assert(orders.push(order).drop_first() =~= Seq::<OrderView>::empty());
        assert(sum_remaining(orders.push(order).drop_first()) == 0);
    } else {
        assert(orders.push(order).drop_first() =~= orders.drop_first().push(order));
        lemma_sum_push(orders.drop_first(), order);
    }
}

/// Taking orders out never raises the sum.
pub proof fn lemma_sum_filter(orders: Seq<OrderView>, keep: spec_fn(OrderView) -> bool)
    ensures
        sum_remaining(orders.filter(keep)) <= sum_remaining(orders),
    decreases orders.len(),
{
    reveal(Seq::filter);
    if orders.len() > 0 {
        let front = orders.drop_last();
        assert(orders =~= front.push(orders.last()));
        lemma_sum_filter(front, keep);
        lemma_sum_push(front, orders.last());
        if keep(orders.last()) {
            lemma_sum_push(front.filter(keep), orders.last());
        }
    }
}

/// Where every order is kept, the sequence is.
pub proof fn lemma_filter_keeps_all(orders: Seq<OrderView>, keep: spec_fn(OrderView) -> bool)
    requires
        forall|i: int| 0 <= i < orders.len() ==> keep(#[trigger] orders[i]),
    ensures
        orders.filter(keep) == orders,
    decreases orders.len(),
{
    reveal(Seq::filter);
    if orders.len() > 0 {
        lemma_filter_keeps_all(orders.drop_last(), keep);
        assert(orders =~= orders.drop_last().push(orders.last()));
    }
}

/// A fill behind the others adds its quantity to the volume.
pub proof fn lemma_volume_push(fills: Seq<Fill>, fill: Fill)
    ensures
        volume(fills.push(fill)) == volume(fills) + fill.quantity,
{
    assert(fills.push(fill).drop_last() =~= fills);
}

/// The sum over a queue is the sum over the orders that a test keeps and
/// the sum over those that it does not.
pub proof fn lemma_sum_splits(
    orders: Seq<OrderView>,
    keep: spec_fn(OrderView) -> bool,
    drop: spec_fn(OrderView) -> bool,
)
    requires
        forall|o: OrderView| #[trigger] keep(o) <==> !drop(o),
    ensures
        sum_remaining(orders) == sum_remaining(orders.filter(keep)) + sum_remaining(
            orders.filter(drop),
        ),
    decreases orders.len(),
{
    reveal(Seq::filter);
    if orders.len() > 0 {
        let front = orders.drop_last();
        let last = orders.last();
        assert(orders =~= front.push(last));
        lemma_sum_splits(front, keep, drop);
        lemma_sum_push(front, last);
        if keep(last) {
            lemma_sum_push(front.filter(keep), last);
        } else {
            lemma_sum_push(front.filter(drop), last);
        }
    }
}

/// The volume of the first fills is no more than the volume of all.
pub proof fn lemma_volume_of_prefix(fills: Seq<Fill>, n: int)
    requires
        0 <= n <= fills.len(),
    ensures
        volume(fills.subrange(0, n)) <= volume(fills),
    decreases fills.len(),
{
    if n < fills.len() {
        assert(fills.drop_last().subrange(0, n) =~= fills.subrange(0, n));
        lemma_volume_of_prefix(fills.drop_last(), n);
    } else {
        assert(fills.subrange(0, n) =~= fills);
    }
}

} // verus!
