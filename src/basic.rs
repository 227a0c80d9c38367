//! The reference side container: a sorted `Vec` searched by bisection.
use vstd::prelude::*;
use std::collections::HashMap;
use crate::{
    Level, LobError, MessageType, Price, Qty, SecurityId, SeqNo, StreamMessage, Update,
    INCREMENTAL_HEADER_SIZE, SNAPSHOT_SIZE,
};
use crate::book::{BookSide, Lob};
use crate::codec::{decode_incremental, decode_snapshot, field};
use crate::replay::{
    apply_record, frame_of, incremental_pass, registry_view, registry_wf, replay, snapshot_book,
    snapshot_pass, stream_step, view_of, BookView,
};
use crate::model::{
    is_slot, lemma_found_at_slot, lemma_slot_unique, lemma_with_level_wf, lemma_without_level_wf, precedes, side_wf,
};

verus! {

/// A side kept in a sorted vector, with no bound on its depth.
#[derive(Clone)]
pub struct Basic {
    pub levels: Vec<Level>,
    pub is_b: bool,
}

impl Basic {
    pub fn new(is_b: bool) -> (r: Self)
        ensures
            r.levels@ == Seq::<Level>::empty(),
            r.is_b == is_b,
    {
        Basic { levels: Vec::with_capacity(100), is_b }
    }

    pub open spec fn is_bid_side(&self) -> bool {
        self.is_b
    }

    /// Bisection for `price`: `Ok(i)` where level `i` holds it, else `Err(i)`
    /// with `i` the index where it belongs.
    pub fn find_position(&self, price: Price) -> (r: Result<usize, usize>)
        requires
            side_wf(self.levels@, self.is_b),
        ensures
            match r {
                Ok(i) => is_slot(self.levels@, self.is_b, price, i as int) && i < self.levels@.len()
                    && self.levels@[i as int].price == price,
                Err(i) => is_slot(self.levels@, self.is_b, price, i as int) && !(i
                    < self.levels@.len() && self.levels@[i as int].price == price),
            },
    {
        let ghost s = self.levels@;
        let mut lo: usize = 0;
        let mut hi: usize = self.levels.len();
        while lo < hi
            invariant
                s == self.levels@,
                side_wf(s, self.is_b),
                0 <= lo <= hi <= s.len(),
                forall|j: int| 0 <= j < lo ==> precedes(self.is_b, #[trigger] s[j].price, price),
                forall|j: int| hi <= j < s.len() ==> !precedes(self.is_b, #[trigger] s[j].price, price)
                    && s[j].price != price,
            decreases hi - lo,
        {
            let mid = lo + (hi - lo) / 2;
            let p = self.levels[mid].price;
            if p == price {
                proof {
                    assert forall|j: int| mid <= j < s.len() implies !precedes(
                        self.is_b,
                        #[trigger] s[j].price,
                        price,
                    ) by {
                        if j > mid {
                            assert(precedes(self.is_b, s[mid as int].price, s[j].price));
                        }
                    }
                    assert forall|j: int| 0 <= j < mid implies precedes(self.is_b, #[trigger] s[j].price, price) by {
                        if j >= lo {
                            assert(precedes(self.is_b, s[j].price, s[mid as int].price));
                        }
                    }
                }
                return Ok(mid);
            }
            let before = if self.is_b { p > price } else { p < price };
            if before {
                proof {
                    assert forall|j: int| 0 <= j < mid + 1 implies precedes(
                        self.is_b,
                        #[trigger] s[j].price,
                        price,
                    ) by {
                        if lo <= j < mid {
                            assert(precedes(self.is_b, s[j].price, s[mid as int].price));
                        }
                    }
                }
                lo = mid + 1;
            } else {
                proof {
                    assert forall|j: int| mid <= j < s.len() implies !precedes(
                        self.is_b,
                        #[trigger] s[j].price,
                        price,
                    ) && s[j].price != price by {
                        if mid < j < hi {
                            assert(precedes(self.is_b, s[mid as int].price, s[j].price));
                        }
                    }
                }
                hi = mid;
            }
        }
        Err(lo)
    }
}

impl BookSide for Basic {
    open spec fn levels(&self) -> Seq<Level> {
        self.levels@
    }

    open spec fn is_bid(&self) -> bool {
        self.is_b
    }

    open spec fn capacity(&self) -> Option<nat> {
        None
    }

    open spec fn inv(&self) -> bool {
        side_wf(self.levels@, self.is_b)
    }

    proof fn lemma_inv(&self) {
    }

    fn update_l(&mut self, price: Price, qty: Qty) {
        proof {
            lemma_found_at_slot(self.levels@, self.is_b, price);
            lemma_with_level_wf(self.levels@, self.is_b, price, qty);
        }
        let ghost s = self.levels@;
        match self.find_position(price) {
            Ok(pos) => {
                proof {
                    lemma_slot_unique(s, self.is_b, price, pos as int);
                }
                self.levels.set(pos, Level { price, quantity: qty });
            },
            Err(pos) => {
                proof {
                    lemma_slot_unique(s, self.is_b, price, pos as int);
                }
                self.levels.insert(pos, Level { price, quantity: qty });
            },
        }
    }

    fn remove_l(&mut self, price: Price) {
        proof {
            lemma_without_level_wf(self.levels@, self.is_b, price);
        }
        let ghost s = self.levels@;
        match self.find_position(price) {
            Ok(pos) => {
                proof {
                    lemma_slot_unique(s, self.is_b, price, pos as int);
                }
                self.levels.remove(pos);
            },
            Err(pos) => {
                proof {
                    lemma_slot_unique(s, self.is_b, price, pos as int);
                }
            },
        }
    }

    fn get_l(&self) -> (r: Vec<Level>) {
        self.levels.clone()
    }
}

/// The reference driver: `Basic` sides in a `HashMap` registry, strict about
/// side bytes.
pub struct BasicProcessor;

impl BasicProcessor {
    pub fn new() -> (r: Self)
        ensures
            r == BasicProcessor,
    {
        BasicProcessor
    }

    /// Builds the book that the snapshot record at `offset` describes.
    pub fn parse_snapshot(&self, data: &[u8], offset: usize) -> (r: Result<
        (SecurityId, SeqNo, Lob<Basic>),
        LobError,
    >)
        ensures
            offset + SNAPSHOT_SIZE > data@.len() <==> r is Err,
            r is Err ==> r->Err_0 == (LobError::Truncated { offset }),
            r is Ok ==> {
                let (id, seq, book) = r->Ok_0;
                &&& id == field(data@, offset + 16)
                &&& seq == field(data@, offset + 8)
                &&& book.wf()
                &&& book.security_id == id
                &&& book.bids.capacity() == None::<nat>
                &&& book.asks.capacity() == None::<nat>
                &&& view_of(book) == snapshot_book(data@, offset as int, None)
            },
    {
        let rec = match decode_snapshot(data, offset) {
            Ok(rec) => rec,
            Err(e) => {
                return Err(e);
            },
        };
        let mut book = Lob::new(rec.security_id, Basic::new(true), Basic::new(false));
        book.last_update_seq = Some(rec.seq_no);
        book.load_levels(&rec.bids, &rec.asks);
        Ok((rec.security_id, rec.seq_no, book))
    }

    /// Applies one incremental record to the registry: nothing when
    /// `seq_no <= max_snapshot_seq`; otherwise the updates, in order, to the
    /// book of `security_id` (created empty when absent), which then records
    /// `seq_no`.
    pub fn apply_incremental(
        &self,
        books: &mut HashMap<SecurityId, Lob<Basic>>,
        max_snapshot_seq: SeqNo,
        security_id: SecurityId,
        seq_no: SeqNo,
        updates: &Vec<Update>,
    )
        requires
            registry_wf(old(books)@, None),
        ensures
            registry_wf(final(books)@, None),
            registry_view(final(books)@) == apply_record(
                registry_view(old(books)@),
                max_snapshot_seq,
                security_id,
                seq_no,
                updates@,
                None,
            ),
            seq_no <= max_snapshot_seq ==> final(books)@ == old(books)@,
            seq_no > max_snapshot_seq ==> final(books)@.contains_key(security_id)
                && final(books)@[security_id].last_update_seq == Some(seq_no),
    {
        broadcast use vstd::std_specs::hash::group_hash_axioms;

        if seq_no > max_snapshot_seq {
            let ghost m0 = books@;
            let mut book = match books.remove(&security_id) {
                Some(b) => b,
                None => Lob::new(security_id, Basic::new(true), Basic::new(false)),
            };
            proof {
                let base: BookView = if m0.contains_key(security_id) {
                    registry_view(m0)[security_id]
                } else {
                    (security_id, Seq::empty(), Seq::empty(), None)
                };
                assert(view_of(book).0 == base.0 && view_of(book).1 == base.1 && view_of(book).2
                    == base.2);
            }
            book.apply_updates(updates);
            book.last_update_seq = Some(seq_no);
            books.insert(security_id, book);
            proof {
                assert(registry_view(books@) =~= apply_record(
                    registry_view(m0),
                    max_snapshot_seq,
                    security_id,
                    seq_no,
                    updates@,
                    None,
                ));
            }
        }
    }

    /// Replays a snapshot buffer, then an incremental buffer, into a fresh
    /// registry.
    pub fn process_bytes(&self, snapshot: &[u8], incremental: &[u8]) -> (r: Result<
        HashMap<SecurityId, Lob<Basic>>,
        LobError,
    >)
        ensures
            match r {
                Ok(books) => registry_wf(books@, None) && replay(snapshot@, incremental@, None, true)
                    == Ok::<Map<SecurityId, BookView>, LobError>(registry_view(books@)),
                Err(e) => replay(snapshot@, incremental@, None, true) == Err::<
                    Map<SecurityId, BookView>,
                    LobError,
                >(e),
            },
    {
        broadcast use vstd::std_specs::hash::group_hash_axioms;

        let mut books: HashMap<SecurityId, Lob<Basic>> = HashMap::new();
        let mut max_snapshot_seq: SeqNo = 0;
        let mut offset: usize = 0;
        proof {
            assert(registry_view(books@) =~= Map::empty());
        }
        while snapshot.len() >= SNAPSHOT_SIZE && offset <= snapshot.len() - SNAPSHOT_SIZE
            invariant
                registry_wf(books@, None),
                snapshot_pass(snapshot@, 0, Map::empty(), 0, None) == snapshot_pass(
                    snapshot@,
                    offset as int,
                    registry_view(books@),
                    max_snapshot_seq,
                    None,
                ),
            decreases snapshot@.len() - offset,
        {
            let ghost m0 = books@;
            let (security_id, seq_no, book) = match self.parse_snapshot(snapshot, offset) {
                Ok(t) => t,
                Err(e) => {
                    return Err(e);
                },
            };
            if seq_no > max_snapshot_seq {
                max_snapshot_seq = seq_no;
            }
            books.insert(security_id, book);
            proof {
                assert(registry_view(books@) =~= registry_view(m0).insert(security_id, view_of(book)));
            }
            offset = offset + SNAPSHOT_SIZE;
        }
        let ghost m1 = registry_view(books@);
        let mut offset: usize = 0;
        while incremental.len() >= INCREMENTAL_HEADER_SIZE && offset <= incremental.len()
            - INCREMENTAL_HEADER_SIZE
            invariant
                registry_wf(books@, None),
                replay(snapshot@, incremental@, None, true) == incremental_pass(
                    incremental@,
                    offset as int,
                    registry_view(books@),
                    max_snapshot_seq,
                    None,
                    true,
                ),
            decreases incremental@.len() - offset,
        {
            let rec = match decode_incremental(incremental, offset, true) {
                Ok(rec) => rec,
                Err(e) => {
                    return Err(e);
                },
            };
            self.apply_incremental(
                &mut books,
                max_snapshot_seq,
                rec.security_id,
                rec.seq_no,
                &rec.updates,
            );
            offset = rec.end;
        }
        Ok(books)
    }
}

impl Default for BasicProcessor {
    fn default() -> (r: Self)
        ensures
            r == BasicProcessor,
    {
        BasicProcessor::new()
    }
}

/// The state of the reference stream driver between two frames.
pub struct BasicStream {
    pub books: HashMap<SecurityId, Lob<Basic>>,
    pub in_snapshot_phase: bool,
    pub max_snapshot_seq: SeqNo,
}

impl BasicStream {
    pub fn new() -> (r: Self)
        ensures
            r.wf(),
            r.books@ == Map::<SecurityId, Lob<Basic>>::empty(),
            r.in_snapshot_phase,
            r.max_snapshot_seq == 0,
    {
        BasicStream { books: HashMap::new(), in_snapshot_phase: true, max_snapshot_seq: 0 }
    }

    pub open spec fn wf(&self) -> bool {
        registry_wf(self.books@, None)
    }

    /// Takes one frame. On an error the state is left as it was.
    pub fn handle(&mut self, msg: StreamMessage) -> (r: Result<(), LobError>)
        requires
            old(self).wf(),
        ensures
            final(self).wf(),
            ({
                let (tag, data) = frame_of(msg);
                let step = stream_step(
                    registry_view(old(self).books@),
                    old(self).in_snapshot_phase,
                    old(self).max_snapshot_seq,
                    tag,
                    data,
                    None,
                    true,
                );
                match r {
                    Ok(_) => step == Ok::<(Map<SecurityId, BookView>, bool, SeqNo), LobError>(
                        (
                            registry_view(final(self).books@),
                            final(self).in_snapshot_phase,
                            final(self).max_snapshot_seq,
                        ),
                    ),
                    Err(e) => step == Err::<(Map<SecurityId, BookView>, bool, SeqNo), LobError>(e)
                        && final(self).books@ == old(self).books@
                        && final(self).in_snapshot_phase == old(self).in_snapshot_phase
                        && final(self).max_snapshot_seq == old(self).max_snapshot_seq,
                }
            }),
    {
        broadcast use vstd::std_specs::hash::group_hash_axioms;

        let processor = BasicProcessor::new();
        match msg {
            StreamMessage::Data(MessageType::Snapshot, data) => {
                if self.in_snapshot_phase {
                    let ghost m0 = self.books@;
                    let (security_id, seq_no, book) = match processor.parse_snapshot(&data, 0) {
                        Ok(t) => t,
                        Err(e) => {
                            return Err(e);
                        },
                    };
                    if seq_no > self.max_snapshot_seq {
                        self.max_snapshot_seq = seq_no;
                    }
                    self.books.insert(security_id, book);
                    proof {
                        assert(registry_view(self.books@) =~= registry_view(m0).insert(
                            security_id,
                            view_of(book),
                        ));
                    }
                }
                Ok(())
            },
            StreamMessage::Data(MessageType::Incremental, data) => {
                if !self.in_snapshot_phase {
                    let rec = match decode_incremental(&data, 0, true) {
                        Ok(rec) => rec,
                        Err(e) => {
                            return Err(e);
                        },
                    };
                    processor.apply_incremental(
                        &mut self.books,
                        self.max_snapshot_seq,
                        rec.security_id,
                        rec.seq_no,
                        &rec.updates,
                    );
                }
                Ok(())
            },
            _ => {
                self.in_snapshot_phase = false;
                Ok(())
            },
        }
    }
}

} // verus!
