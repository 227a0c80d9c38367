//! Properties of the side model and of the registry, stated over the spec
//! functions that the containers' and drivers' contracts use.
use vstd::prelude::*;
use crate::{Level, Price, Qty, SecurityId, SeqNo, Update};
use crate::book::BookSide;
use crate::improved::{fast_capacity, MAX_LEVELS};
use crate::model::{
    has_price, is_level, is_positive_price, lemma_level_op_wf, lemma_with_level_wf,
    lemma_without_level_wf, level_op, precedes, replay_side, side_wf, with_level, without_level,
};
use crate::replay::{apply_record, BookView};

verus! {

/// Neighbouring levels are strictly ordered: falling prices for bids, rising
/// prices for asks.
pub open spec fn adjacent_ordered(levels: Seq<Level>, is_bid: bool) -> bool {
    forall|i: int|
        0 <= i < levels.len() - 1 ==> precedes(is_bid, #[trigger] levels[i].price, levels[i + 1].price)
}

/// No price appears twice.
pub open spec fn prices_unique(levels: Seq<Level>) -> bool {
    forall|i: int, j: int|
        0 <= i < levels.len() && 0 <= j < levels.len() && i != j ==> #[trigger] levels[i].price
            != #[trigger] levels[j].price
}

/// Every level has a positive price and a positive quantity.
pub open spec fn all_positive(levels: Seq<Level>) -> bool {
    forall|i: int|
        0 <= i < levels.len() ==> is_positive_price(#[trigger] levels[i].price) && levels[i].quantity
            > 0
}

proof fn lemma_adjacent_to_wf(levels: Seq<Level>, is_bid: bool)
    requires
        adjacent_ordered(levels, is_bid),
        all_positive(levels),
    ensures
        side_wf(levels, is_bid),
{
    assert forall|i: int, j: int| 0 <= i < j < levels.len() implies precedes(
        is_bid,
        #[trigger] levels[i].price,
        #[trigger] levels[j].price,
    ) by {
        lemma_adjacent_chain(levels, is_bid, i, j);
    }
    assert forall|i: int| 0 <= i < levels.len() implies #[trigger] is_level(levels[i]) by {
        assert(is_positive_price(levels[i].price));
    }
}

proof fn lemma_adjacent_chain(levels: Seq<Level>, is_bid: bool, i: int, j: int)
    requires
        adjacent_ordered(levels, is_bid),
        0 <= i < j < levels.len(),
    ensures
        precedes(is_bid, levels[i].price, levels[j].price),
    decreases j - i,
{
    assert(precedes(is_bid, levels[j - 1].price, levels[j].price));
    if i < j - 1 {
        lemma_adjacent_chain(levels, is_bid, i, j - 1);
    }
}

proof fn lemma_wf_gives_all(levels: Seq<Level>, is_bid: bool)
    requires
        side_wf(levels, is_bid),
    ensures
        adjacent_ordered(levels, is_bid),
        prices_unique(levels),
        all_positive(levels),
{
    assert forall|i: int| 0 <= i < levels.len() - 1 implies precedes(
        is_bid,
        #[trigger] levels[i].price,
        levels[i + 1].price,
    ) by {
        assert(precedes(is_bid, levels[i].price, levels[i + 1].price));
    }
    assert forall|i: int, j: int|
        0 <= i < levels.len() && 0 <= j < levels.len() && i != j implies #[trigger] levels[i].price
        != #[trigger] levels[j].price by {
        if i < j {
            assert(precedes(is_bid, levels[i].price, levels[j].price));
        } else {
            assert(precedes(is_bid, levels[j].price, levels[i].price));
        }
    }
    assert forall|i: int| 0 <= i < levels.len() implies is_positive_price(
        #[trigger] levels[i].price,
    ) && levels[i].quantity > 0 by {
        assert(is_level(levels[i]));
    }
}

/// Ordering, uniqueness and positivity hold after every change to a side
/// that had them: an update, a delete, a dropped insert alike.
pub proof fn law_change_keeps_invariants(
    levels: Seq<Level>,
    is_bid: bool,
    capacity: Option<nat>,
    price: Price,
    qty: Qty,
)
    requires
        adjacent_ordered(levels, is_bid),
        prices_unique(levels),
        all_positive(levels),
    ensures
        adjacent_ordered(level_op(levels, is_bid, capacity, price, qty), is_bid),
        prices_unique(level_op(levels, is_bid, capacity, price, qty)),
        all_positive(level_op(levels, is_bid, capacity, price, qty)),
{
    lemma_adjacent_to_wf(levels, is_bid);
    lemma_level_op_wf(levels, is_bid, capacity, price, qty);
    lemma_wf_gives_all(level_op(levels, is_bid, capacity, price, qty), is_bid);
}

/// Any side that a container holds, after any sequence of its operations
/// (each keeps `inv`), is ordered, free of duplicate prices and positive.
pub proof fn law_container_invariants<B: BookSide>(side: &B)
    requires
        side.inv(),
    ensures
        adjacent_ordered(side.levels(), side.is_bid()),
        prices_unique(side.levels()),
        all_positive(side.levels()),
{
    side.lemma_inv();
    lemma_wf_gives_all(side.levels(), side.is_bid());
}

/// Deleting a price that is not on the side leaves the side unchanged.
pub proof fn law_remove_absent(levels: Seq<Level>, is_bid: bool, price: Price)
    requires
        side_wf(levels, is_bid),
        !has_price(levels, price),
    ensures
        without_level(levels, is_bid, price) == levels,
{
    lemma_without_level_wf(levels, is_bid, price);
}

/// Updating a price that is on the side keeps the number of levels and sets
/// that level's quantity, in place.
pub proof fn law_replace_on_match(levels: Seq<Level>, is_bid: bool, price: Price, qty: Qty, i: int)
    requires
        side_wf(levels, is_bid),
        0 <= i < levels.len(),
        levels[i].price == price,
        qty > 0,
    ensures
        with_level(levels, is_bid, price, qty).len() == levels.len(),
        with_level(levels, is_bid, price, qty) == levels.update(i, Level { price, quantity: qty }),
{
    crate::model::lemma_found_at_slot(levels, is_bid, price);
    let k = crate::model::slot(levels, is_bid, price);
    if k != i {
        if k < i {
            assert(precedes(is_bid, levels[k].price, levels[i].price));
        } else {
            assert(precedes(is_bid, levels[i].price, price));
        }
    }
}

proof fn lemma_replay_wf(levels: Seq<Level>, is_bid: bool, capacity: Option<nat>, updates: Seq<Update>)
    requires
        side_wf(levels, is_bid),
    ensures
        side_wf(replay_side(levels, is_bid, capacity, updates), is_bid),
    decreases updates.len(),
{
    if updates.len() > 0 {
        lemma_replay_wf(levels, is_bid, capacity, updates.drop_last());
        let prev = replay_side(levels, is_bid, capacity, updates.drop_last());
        let u = updates.last();
        lemma_level_op_wf(prev, is_bid, capacity, u.price, u.qty);
    }
}

/// While the reference side never holds more than `MAX_LEVELS` levels, the
/// fast side, fed the same updates, holds the same levels in the same order.
pub proof fn law_reference_and_fast_agree(levels: Seq<Level>, is_bid: bool, updates: Seq<Update>)
    requires
        side_wf(levels, is_bid),
        forall|n: int|
            0 <= n <= updates.len() ==> #[trigger] replay_side(levels, is_bid, None, updates.take(n)).len()
                <= MAX_LEVELS,
    ensures
        replay_side(levels, is_bid, None, updates) == replay_side(
            levels,
            is_bid,
            fast_capacity(),
            updates,
        ),
    decreases updates.len(),
{
    assert(updates.take(updates.len() as int) =~= updates);
    if updates.len() > 0 {
        let init = updates.drop_last();
        assert forall|n: int| 0 <= n <= init.len() implies #[trigger] replay_side(
            levels,
            is_bid,
            None,
            init.take(n),
        ).len() <= MAX_LEVELS by {
            assert(init.take(n) =~= updates.take(n));
        }
        law_reference_and_fast_agree(levels, is_bid, init);
        let prev = replay_side(levels, is_bid, None, init);
        lemma_replay_wf(levels, is_bid, None, init);
        let u = updates.last();
        if u.qty > 0 && is_positive_price(u.price) {
            lemma_with_level_wf(prev, is_bid, u.price, u.qty);
        }
    }
}

/// A record at or below the snapshot maximum leaves the registry as it was.
pub proof fn law_stale_record_ignored(
    books: Map<SecurityId, BookView>,
    max_seq: SeqNo,
    security_id: SecurityId,
    seq_no: SeqNo,
    updates: Seq<Update>,
    capacity: Option<nat>,
)
    requires
        seq_no <= max_seq,
    ensures
        apply_record(books, max_seq, security_id, seq_no, updates, capacity) == books,
{
}

/// A newer record for a security without a book creates its book, under its
/// id, stamped with the record's sequence number.
pub proof fn law_late_joiner(
    books: Map<SecurityId, BookView>,
    max_seq: SeqNo,
    security_id: SecurityId,
    seq_no: SeqNo,
    updates: Seq<Update>,
    capacity: Option<nat>,
)
    requires
        !books.contains_key(security_id),
        seq_no > max_seq,
    ensures
        ({
            let after = apply_record(books, max_seq, security_id, seq_no, updates, capacity);
            &&& after.contains_key(security_id)
            &&& after[security_id].0 == security_id
            &&& after[security_id].3 == Some(seq_no)
            &&& after[security_id].1 == replay_side(Seq::empty(), true, capacity, updates)
            &&& after[security_id].2 == replay_side(Seq::empty(), false, capacity, updates)
        }),
{
}

} // verus!
