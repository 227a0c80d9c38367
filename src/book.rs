//! The contract shared by both side containers, and the book that holds a
//! bid side and an ask side.
use vstd::prelude::*;
use crate::{Level, Price, Qty, SecurityId, SeqNo, Side, Update};
use crate::model::{
    has_price, has_room, is_positive_price, level_op, load_side, price_is_positive, replay_side,
    side_wf, with_level, without_level,
};

verus! {

/// One side of a book: levels kept best first.
pub trait BookSide: Sized {
    /// The levels, best first.
    spec fn levels(&self) -> Seq<Level>;

    spec fn is_bid(&self) -> bool;

    /// The most levels the container keeps; `None` when unbounded.
    spec fn capacity(&self) -> Option<nat>;

    spec fn inv(&self) -> bool;

    proof fn lemma_inv(&self)
        requires
            self.inv(),
        ensures
            side_wf(self.levels(), self.is_bid()),
            match self.capacity() {
                Some(n) => self.levels().len() <= n,
                None => true,
            },
    ;

    /// Sets the quantity at `price`: replaced where present, inserted in order
    /// where not, dropped where the side is full.
    fn update_l(&mut self, price: Price, qty: Qty)
        requires
            old(self).inv(),
            is_positive_price(price),
            qty > 0,
        ensures
            final(self).inv(),
            final(self).is_bid() == old(self).is_bid(),
            final(self).capacity() == old(self).capacity(),
            final(self).levels() == (if has_price(old(self).levels(), price) || has_room(
                old(self).levels(),
                old(self).capacity(),
            ) {
                with_level(old(self).levels(), old(self).is_bid(), price, qty)
            } else {
                old(self).levels()
            }),
    ;

    /// Deletes the level at `price`, if there is one.
    fn remove_l(&mut self, price: Price)
        requires
            old(self).inv(),
        ensures
            final(self).inv(),
            final(self).is_bid() == old(self).is_bid(),
            final(self).capacity() == old(self).capacity(),
            final(self).levels() == without_level(old(self).levels(), old(self).is_bid(), price),
    ;

    /// A copy of the levels, best first.
    fn get_l(&self) -> (r: Vec<Level>)
        requires
            self.inv(),
        ensures
            r@ == self.levels(),
    ;
}

/// The book of one security.
pub struct Lob<B: BookSide> {
    pub security_id: SecurityId,
    pub bids: B,
    pub asks: B,
    pub last_update_seq: Option<SeqNo>,
}

impl<B: BookSide> Lob<B> {
    pub open spec fn wf(&self) -> bool {
        &&& self.bids.inv()
        &&& self.asks.inv()
        &&& self.bids.is_bid()
        &&& !self.asks.is_bid()
    }

    pub fn new(security_id: SecurityId, bids: B, asks: B) -> (r: Self)
        ensures
            r.security_id == security_id,
            r.bids == bids,
            r.asks == asks,
            r.last_update_seq.is_none(),
    {
        Lob { security_id, bids, asks, last_update_seq: None }
    }

    /// Applies one change to the side it names: a zero quantity deletes the
    /// level, any other sets it. A price that is not positive is never stored.
    pub fn update(&mut self, side: Side, price: Price, qty: Qty)
        requires
            old(self).wf(),
        ensures
            final(self).wf(),
            final(self).security_id == old(self).security_id,
            final(self).last_update_seq == old(self).last_update_seq,
            final(self).bids.capacity() == old(self).bids.capacity(),
            final(self).asks.capacity() == old(self).asks.capacity(),
            final(self).bids.levels() == (if side == Side::B {
                level_op(old(self).bids.levels(), true, old(self).bids.capacity(), price, qty)
            } else {
                old(self).bids.levels()
            }),
            final(self).asks.levels() == (if side == Side::A {
                level_op(old(self).asks.levels(), false, old(self).asks.capacity(), price, qty)
            } else {
                old(self).asks.levels()
            }),
    {
        match side {
            Side::B => {
                if qty == 0 {
                    self.bids.remove_l(price);
                } else if price_is_positive(price) {
                    self.bids.update_l(price, qty);
                }
            },
            Side::A => {
                if qty == 0 {
                    self.asks.remove_l(price);
                } else if price_is_positive(price) {
                    self.asks.update_l(price, qty);
                }
            },
        }
    }

    /// Applies the updates of one record in order.
    pub fn apply_updates(&mut self, updates: &Vec<Update>)
        requires
            old(self).wf(),
        ensures
            final(self).wf(),
            final(self).security_id == old(self).security_id,
            final(self).last_update_seq == old(self).last_update_seq,
            final(self).bids.capacity() == old(self).bids.capacity(),
            final(self).asks.capacity() == old(self).asks.capacity(),
            final(self).bids.levels() == replay_side(
                old(self).bids.levels(),
                true,
                old(self).bids.capacity(),
                updates@,
            ),
            final(self).asks.levels() == replay_side(
                old(self).asks.levels(),
                false,
                old(self).asks.capacity(),
                updates@,
            ),
    {
        let ghost b0 = self.bids.levels();
        let ghost a0 = self.asks.levels();
        let ghost bc = self.bids.capacity();
        let ghost ac = self.asks.capacity();
        let mut i: usize = 0;
        while i < updates.len()
            invariant
                i <= updates.len(),
                self.wf(),
                self.security_id == old(self).security_id,
                self.last_update_seq == old(self).last_update_seq,
                self.bids.capacity() == bc,
                self.asks.capacity() == ac,
                self.bids.levels() == replay_side(b0, true, bc, updates@.take(i as int)),
                self.asks.levels() == replay_side(a0, false, ac, updates@.take(i as int)),
            decreases updates.len() - i,
        {
            let u = updates[i];
            self.update(u.side, u.price, u.qty);
            proof {
                assert(updates@.take(i + 1).drop_last() =~= updates@.take(i as int));
            }
            i = i + 1;
        }
        proof {
            assert(updates@.take(i as int) =~= updates@);
        }
    }

    /// Fills empty sides from the levels of a snapshot, one by one in the
    /// order given; the sides end up best first whatever that order was.
    pub fn load_levels(&mut self, bids: &Vec<Level>, asks: &Vec<Level>)
        requires
            old(self).wf(),
            old(self).bids.levels() == Seq::<Level>::empty(),
            old(self).asks.levels() == Seq::<Level>::empty(),
        ensures
            final(self).wf(),
            final(self).security_id == old(self).security_id,
            final(self).last_update_seq == old(self).last_update_seq,
            final(self).bids.capacity() == old(self).bids.capacity(),
            final(self).asks.capacity() == old(self).asks.capacity(),
            final(self).bids.levels() == load_side(true, old(self).bids.capacity(), bids@),
            final(self).asks.levels() == load_side(false, old(self).asks.capacity(), asks@),
    {
        let ghost bc = self.bids.capacity();
        let ghost ac = self.asks.capacity();
        let mut i: usize = 0;
        while i < bids.len()
            invariant
                i <= bids.len(),
                self.wf(),
                self.security_id == old(self).security_id,
                self.last_update_seq == old(self).last_update_seq,
                self.bids.capacity() == bc,
                self.asks.capacity() == ac,
                self.bids.levels() == load_side(true, bc, bids@.take(i as int)),
                self.asks.levels() == Seq::<Level>::empty(),
            decreases bids.len() - i,
        {
            let l = bids[i];
            self.update(Side::B, l.price, l.quantity);
            proof {
                assert(bids@.take(i + 1).drop_last() =~= bids@.take(i as int));
            }
            i = i + 1;
        }
        proof {
            assert(bids@.take(i as int) =~= bids@);
            assert(asks@.take(0) =~= Seq::<Level>::empty());
        }
        let mut i: usize = 0;
        while i < asks.len()
            invariant
                i <= asks.len(),
                self.wf(),
                self.security_id == old(self).security_id,
                self.last_update_seq == old(self).last_update_seq,
                self.bids.capacity() == bc,
                self.asks.capacity() == ac,
                self.bids.levels() == load_side(true, bc, bids@),
                self.asks.levels() == load_side(false, ac, asks@.take(i as int)),
            decreases asks.len() - i,
        {
            let l = asks[i];
            self.update(Side::A, l.price, l.quantity);
            proof {
                assert(asks@.take(i + 1).drop_last() =~= asks@.take(i as int));
            }
            i = i + 1;
        }
        proof {
            assert(asks@.take(i as int) =~= asks@);
        }
    }
}

} // verus!
