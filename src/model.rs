//! The mathematical model of one side of a book: a sequence of levels,
//! best first, and what each operation does to it.
use vstd::prelude::*;
use crate::{Level, Price, Qty, Side, Update};

verus! {

/// The bit pattern of +infinity, the largest positive binary64 value that is
/// a number.
pub const POSITIVE_INFINITY_BITS: u64 = 0x7FF0_0000_0000_0000;

/// A pattern is a positive price when it encodes a binary64 value `> 0`:
/// sign bit clear, not zero, not a NaN. On such patterns the unsigned order is
/// the order of the prices.
pub open spec fn is_positive_price(p: Price) -> bool {
    0 < p <= POSITIVE_INFINITY_BITS
}

pub fn price_is_positive(p: Price) -> (r: bool)
    ensures
        r == is_positive_price(p),
{
    0 < p && p <= POSITIVE_INFINITY_BITS
}

/// `a` comes before `b` on a side: higher first for bids, lower first for asks.
pub open spec fn precedes(is_bid: bool, a: Price, b: Price) -> bool {
    if is_bid {
        a > b
    } else {
        a < b
    }
}

pub open spec fn is_level(l: Level) -> bool {
    is_positive_price(l.price) && l.quantity > 0
}

/// Every level is positive and each level comes strictly before all the
/// later ones (so no price appears twice).
pub open spec fn side_wf(levels: Seq<Level>, is_bid: bool) -> bool {
    &&& forall|i: int| 0 <= i < levels.len() ==> #[trigger] is_level(levels[i])
    &&& forall|i: int, j: int|
        0 <= i < j < levels.len() ==> precedes(is_bid, #[trigger] levels[i].price, #[trigger] levels[j].price)
}

pub open spec fn has_price(levels: Seq<Level>, price: Price) -> bool {
    exists|i: int| 0 <= i < levels.len() && #[trigger] levels[i].price == price
}

/// `k` is where `price` belongs: every level before `k` comes before it, no
/// level from `k` on does.
pub open spec fn is_slot(levels: Seq<Level>, is_bid: bool, price: Price, k: int) -> bool {
    &&& 0 <= k <= levels.len()
    &&& forall|j: int| 0 <= j < k ==> precedes(is_bid, #[trigger] levels[j].price, price)
    &&& forall|j: int| k <= j < levels.len() ==> !precedes(is_bid, #[trigger] levels[j].price, price)
}

pub open spec fn slot(levels: Seq<Level>, is_bid: bool, price: Price) -> int {
    choose|k: int| is_slot(levels, is_bid, price, k)
}

/// The side after setting the quantity at `price`: replaced where the price
/// is present, inserted in order where it is not.
pub open spec fn with_level(levels: Seq<Level>, is_bid: bool, price: Price, qty: Qty) -> Seq<Level> {
    let k = slot(levels, is_bid, price);
    let l = Level { price, quantity: qty };
    if k < levels.len() && levels[k].price == price {
        levels.update(k, l)
    } else {
        levels.insert(k, l)
    }
}

/// The side after deleting the level at `price`, if there is one.
pub open spec fn without_level(levels: Seq<Level>, is_bid: bool, price: Price) -> Seq<Level> {
    let k = slot(levels, is_bid, price);
    if k < levels.len() && levels[k].price == price {
        levels.remove(k)
    } else {
        levels
    }
}

/// Whether a side bounded by `capacity` can take one more level.
pub open spec fn has_room(levels: Seq<Level>, capacity: Option<nat>) -> bool {
    match capacity {
        Some(n) => levels.len() < n,
        None => true,
    }
}

/// One change applied to a side. A zero quantity deletes; a price that is not
/// positive is never stored; a new level that finds the side full is dropped.
pub open spec fn level_op(
    levels: Seq<Level>,
    is_bid: bool,
    capacity: Option<nat>,
    price: Price,
    qty: Qty,
) -> Seq<Level> {
    if qty == 0 {
        without_level(levels, is_bid, price)
    } else if !is_positive_price(price) {
        levels
    } else if !has_price(levels, price) && !has_room(levels, capacity) {
        levels
    } else {
        with_level(levels, is_bid, price, qty)
    }
}

pub open spec fn side_is(side: Side, is_bid: bool) -> bool {
    (side == Side::B) == is_bid
}

/// A side after the updates of one side, in order; updates of the other side
/// leave it as it is.
pub open spec fn replay_side(
    levels: Seq<Level>,
    is_bid: bool,
    capacity: Option<nat>,
    updates: Seq<Update>,
) -> Seq<Level>
    decreases updates.len(),
{
    if updates.len() == 0 {
        levels
    } else {
        let prev = replay_side(levels, is_bid, capacity, updates.drop_last());
        let u = updates.last();
        if side_is(u.side, is_bid) {
            level_op(prev, is_bid, capacity, u.price, u.qty)
        } else {
            prev
        }
    }
}

/// A side loaded level by level from an empty one.
pub open spec fn load_side(is_bid: bool, capacity: Option<nat>, entries: Seq<Level>) -> Seq<Level>
    decreases entries.len(),
{
    if entries.len() == 0 {
        Seq::empty()
    } else {
        let prev = load_side(is_bid, capacity, entries.drop_last());
        level_op(prev, is_bid, capacity, entries.last().price, entries.last().quantity)
    }
}

pub proof fn lemma_slot_unique(levels: Seq<Level>, is_bid: bool, price: Price, k: int)
    requires
        is_slot(levels, is_bid, price, k),
    ensures
        slot(levels, is_bid, price) == k,
{
    let c = slot(levels, is_bid, price);
    assert(is_slot(levels, is_bid, price, c));
    if c < k {
        assert(precedes(is_bid, levels[c].price, price));
    } else if k < c {
        assert(precedes(is_bid, levels[k].price, price));
    }
}

pub proof fn lemma_slot_exists(levels: Seq<Level>, is_bid: bool, price: Price)
    requires
        side_wf(levels, is_bid),
    ensures
        is_slot(levels, is_bid, price, slot(levels, is_bid, price)),
    decreases levels.len(),
{
    if levels.len() == 0 {
        assert(is_slot(levels, is_bid, price, 0));
    } else {
        let init = levels.drop_last();
        let n = levels.len() - 1;
        assert(side_wf(init, is_bid)) by {
            assert forall|i: int, j: int| 0 <= i < j < init.len() implies precedes(
                is_bid,
                #[trigger] init[i].price,
                #[trigger] init[j].price,
            ) by {
                assert(init[i] == levels[i] && init[j] == levels[j]);
            }
            assert forall|i: int| 0 <= i < init.len() implies #[trigger] is_level(init[i]) by {
                assert(init[i] == levels[i]);
            }
        }
        lemma_slot_exists(init, is_bid, price);
        let k0 = slot(init, is_bid, price);
        if k0 < n {
            assert forall|j: int| k0 <= j < levels.len() implies !precedes(
                is_bid,
                #[trigger] levels[j].price,
                price,
            ) by {
                assert(init[k0] == levels[k0]);
                if j < n {
                    assert(init[j] == levels[j]);
                } else if j > k0 {
                    assert(precedes(is_bid, levels[k0].price, levels[j].price));
                }
            }
            assert forall|j: int| 0 <= j < k0 implies precedes(is_bid, #[trigger] levels[j].price, price) by {
                assert(init[j] == levels[j]);
            }
            assert(is_slot(levels, is_bid, price, k0));
        } else if precedes(is_bid, levels[n].price, price) {
            assert forall|j: int| 0 <= j < n + 1 implies precedes(is_bid, #[trigger] levels[j].price, price) by {
                if j < n {
                    assert(init[j] == levels[j]);
                }
            }
            assert(is_slot(levels, is_bid, price, n + 1));
        } else {
            assert forall|j: int| 0 <= j < n implies precedes(is_bid, #[trigger] levels[j].price, price) by {
                assert(init[j] == levels[j]);
            }
            assert(is_slot(levels, is_bid, price, n));
        }
    }
}

/// On a well-formed side, the price is present exactly when it sits at its slot.
pub proof fn lemma_found_at_slot(levels: Seq<Level>, is_bid: bool, price: Price)
    requires
        side_wf(levels, is_bid),
    ensures
        is_slot(levels, is_bid, price, slot(levels, is_bid, price)),
        has_price(levels, price) <==> ({
            let k = slot(levels, is_bid, price);
            k < levels.len() && levels[k].price == price
        }),
{
    lemma_slot_exists(levels, is_bid, price);
    let k = slot(levels, is_bid, price);
    if has_price(levels, price) {
        let i = choose|i: int| 0 <= i < levels.len() && #[trigger] levels[i].price == price;
        if i < k {
            assert(precedes(is_bid, levels[i].price, price));
        } else if i > k {
            assert(precedes(is_bid, levels[k].price, levels[i].price));
        }
    }
}

pub proof fn lemma_with_level_wf(levels: Seq<Level>, is_bid: bool, price: Price, qty: Qty)
    requires
        side_wf(levels, is_bid),
        is_positive_price(price),
        qty > 0,
    ensures
        side_wf(with_level(levels, is_bid, price, qty), is_bid),
        has_price(levels, price) ==> with_level(levels, is_bid, price, qty).len() == levels.len(),
        !has_price(levels, price) ==> with_level(levels, is_bid, price, qty).len() == levels.len() + 1,
{
    lemma_found_at_slot(levels, is_bid, price);
    let k = slot(levels, is_bid, price);
    let l = Level { price, quantity: qty };
    let r = with_level(levels, is_bid, price, qty);
    if k < levels.len() && levels[k].price == price {
        assert forall|i: int, j: int| 0 <= i < j < r.len() implies precedes(
            is_bid,
            #[trigger] r[i].price,
            #[trigger] r[j].price,
        ) by {
            assert(r[i].price == levels[i].price && r[j].price == levels[j].price);
        }
        assert forall|i: int| 0 <= i < r.len() implies #[trigger] is_level(r[i]) by {
            if i != k {
                assert(r[i] == levels[i]);
            }
        }
    } else {
        assert forall|i: int, j: int| 0 <= i < j < r.len() implies precedes(
            is_bid,
            #[trigger] r[i].price,
            #[trigger] r[j].price,
        ) by {
            if j < k {
                assert(r[i] == levels[i] && r[j] == levels[j]);
            } else if j == k {
                assert(r[i] == levels[i]);
            } else if i < k {
                assert(r[i] == levels[i] && r[j] == levels[j - 1]);
            } else if i == k {
                assert(r[j] == levels[j - 1]);
                assert(!precedes(is_bid, levels[j - 1].price, price));
                if j - 1 > k {
                    assert(precedes(is_bid, levels[k].price, levels[j - 1].price));
                }
            } else {
                assert(r[i] == levels[i - 1] && r[j] == levels[j - 1]);
            }
        }
        assert forall|i: int| 0 <= i < r.len() implies #[trigger] is_level(r[i]) by {
            if i < k {
                assert(r[i] == levels[i]);
            } else if i > k {
                assert(r[i] == levels[i - 1]);
            }
        }
    }
}

pub proof fn lemma_without_level_wf(levels: Seq<Level>, is_bid: bool, price: Price)
    requires
        side_wf(levels, is_bid),
    ensures
        side_wf(without_level(levels, is_bid, price), is_bid),
        has_price(levels, price) ==> without_level(levels, is_bid, price).len() + 1 == levels.len(),
        !has_price(levels, price) ==> without_level(levels, is_bid, price) == levels,
{
    lemma_found_at_slot(levels, is_bid, price);
    let k = slot(levels, is_bid, price);
    let r = without_level(levels, is_bid, price);
    if k < levels.len() && levels[k].price == price {
        assert forall|i: int, j: int| 0 <= i < j < r.len() implies precedes(
            is_bid,
            #[trigger] r[i].price,
            #[trigger] r[j].price,
        ) by {
            if j < k {
                assert(r[i] == levels[i] && r[j] == levels[j]);
            } else if i < k {
                assert(r[i] == levels[i] && r[j] == levels[j + 1]);
            } else {
                assert(r[i] == levels[i + 1] && r[j] == levels[j + 1]);
            }
        }
        assert forall|i: int| 0 <= i < r.len() implies #[trigger] is_level(r[i]) by {
            if i < k {
                assert(r[i] == levels[i]);
            } else {
                assert(r[i] == levels[i + 1]);
            }
        }
    }
}

pub proof fn lemma_level_op_wf(
    levels: Seq<Level>,
    is_bid: bool,
    capacity: Option<nat>,
    price: Price,
    qty: Qty,
)
    requires
        side_wf(levels, is_bid),
    ensures
        side_wf(level_op(levels, is_bid, capacity, price, qty), is_bid),
{
    lemma_without_level_wf(levels, is_bid, price);
    if qty > 0 && is_positive_price(price) {
        lemma_with_level_wf(levels, is_bid, price, qty);
    }
}

} // verus!
