//! The latency-oriented side container: prices and quantities in two fixed
//! arrays of `MAX_LEVELS` slots, searched front to back.
use vstd::prelude::*;
use crate::{
    Level, LobError, MessageType, Price, Qty, SecurityId, SeqNo, StreamMessage, Update,
    INCREMENTAL_HEADER_SIZE, SNAPSHOT_SIZE,
};
use crate::book::{BookSide, Lob};
use crate::codec::{decode_incremental, decode_snapshot, field};
use crate::fnv_books::FnvBooks;
use crate::replay::{
    apply_record, frame_of, incremental_pass, registry_view, registry_wf, replay, snapshot_book,
    snapshot_pass, stream_step, view_of, BookView,
};
use crate::model::{
    is_slot, lemma_found_at_slot, lemma_slot_unique, lemma_with_level_wf, lemma_without_level_wf, precedes, side_wf,
};

verus! {

/// The depth of an [`ImprovedSide`]; a new level that finds the side full is
/// dropped.
pub const MAX_LEVELS: usize = 32;

/// A side in two fixed arrays; `count` slots from the front are in use.
#[derive(Clone)]
pub struct ImprovedSide {
    prices: [Price; MAX_LEVELS],
    qtys: [Qty; MAX_LEVELS],
    count: usize,
    is_b: bool,
}

impl ImprovedSide {
    pub fn new(is_bid: bool) -> (r: Self)
        ensures
            r.inv(),
            r.levels() == Seq::<Level>::empty(),
            r.is_bid() == is_bid,
    {
        let r = ImprovedSide { prices: [0; MAX_LEVELS], qtys: [0; MAX_LEVELS], count: 0, is_b: is_bid };
        proof {
            assert(r.levels() =~= Seq::<Level>::empty());
        }
        r
    }

    /// Scans for `price`: `Ok(i)` where slot `i` holds it, else `Err(i)` with
    /// `i` the first slot that it comes before.
    fn find_position(&self, price: Price) -> (r: Result<usize, usize>)
        requires
            self.inv(),
        ensures
            match r {
                Ok(i) => is_slot(self.levels(), self.is_b, price, i as int) && i < self.count
                    && self.levels()[i as int].price == price,
                Err(i) => is_slot(self.levels(), self.is_b, price, i as int) && !(i < self.count
                    && self.levels()[i as int].price == price),
            },
    {
        let ghost s = self.levels();
        let mut i: usize = 0;
        while i < self.count
            invariant
                self.inv(),
                s == self.levels(),
                i <= self.count,
                forall|j: int| 0 <= j < i ==> precedes(self.is_b, #[trigger] s[j].price, price),
            decreases self.count - i,
        {
            let p = self.prices[i];
            let after = if self.is_b { price > p } else { price < p };
            if p == price || after {
                proof {
                    assert(s[i as int].price == p);
                    assert forall|j: int| i <= j < s.len() implies !precedes(
                        self.is_b,
                        #[trigger] s[j].price,
                        price,
                    ) by {
                        if j > i {
                            assert(precedes(self.is_b, s[i as int].price, s[j].price));
                        }
                    }
                }
                if p == price {
                    return Ok(i);
                }
                return Err(i);
            }
            i = i + 1;
        }
        Err(self.count)
    }

    /// Moves slots `pos..count` one to the right.
    fn shift_right(&mut self, pos: usize)
        requires
            pos <= old(self).count < MAX_LEVELS,
        ensures
            final(self).count == old(self).count,
            final(self).is_b == old(self).is_b,
            forall|t: int| 0 <= t < pos ==> final(self).prices@[t] == old(self).prices@[t]
                && final(self).qtys@[t] == old(self).qtys@[t],
            forall|t: int| pos < t <= old(self).count ==> final(self).prices@[t] == old(self).prices@[t - 1]
                && final(self).qtys@[t] == old(self).qtys@[t - 1],
    {
        let mut j: usize = self.count;
        while j > pos
            invariant
                pos <= j <= self.count < MAX_LEVELS,
                self.count == old(self).count,
                self.is_b == old(self).is_b,
                forall|t: int| 0 <= t < j ==> self.prices@[t] == old(self).prices@[t]
                    && self.qtys@[t] == old(self).qtys@[t],
                forall|t: int| j < t <= self.count ==> self.prices@[t] == old(self).prices@[t - 1]
                    && self.qtys@[t] == old(self).qtys@[t - 1],
            decreases j,
        {
            self.prices[j] = self.prices[j - 1];
            self.qtys[j] = self.qtys[j - 1];
            j = j - 1;
        }
    }

    /// Moves slots `pos + 1..end` one to the left.
    fn shift_left(&mut self, pos: usize, end: usize)
        requires
            pos < end <= MAX_LEVELS,
        ensures
            final(self).count == old(self).count,
            final(self).is_b == old(self).is_b,
            forall|t: int| 0 <= t < pos ==> final(self).prices@[t] == old(self).prices@[t]
                && final(self).qtys@[t] == old(self).qtys@[t],
            forall|t: int| pos <= t < end - 1 ==> final(self).prices@[t] == old(self).prices@[t + 1]
                && final(self).qtys@[t] == old(self).qtys@[t + 1],
    {
        let mut j: usize = pos;
        while j + 1 < end
            invariant
                pos <= j < end <= MAX_LEVELS,
                self.count == old(self).count,
                self.is_b == old(self).is_b,
                forall|t: int| 0 <= t < pos ==> self.prices@[t] == old(self).prices@[t]
                    && self.qtys@[t] == old(self).qtys@[t],
                forall|t: int| pos <= t < j ==> self.prices@[t] == old(self).prices@[t + 1]
                    && self.qtys@[t] == old(self).qtys@[t + 1],
                forall|t: int| j <= t < MAX_LEVELS ==> self.prices@[t] == old(self).prices@[t]
                    && self.qtys@[t] == old(self).qtys@[t],
            decreases end - j,
        {
            self.prices[j] = self.prices[j + 1];
            self.qtys[j] = self.qtys[j + 1];
            j = j + 1;
        }
    }

    /// Takes out the level in slot `pos`.
    fn remove_at(&mut self, pos: usize)
        requires
            old(self).inv(),
            pos < old(self).count,
        ensures
            final(self).count + 1 == old(self).count,
            final(self).is_b == old(self).is_b,
            final(self).levels() == old(self).levels().remove(pos as int),
    {
        let ghost s = self.levels();
        let end = self.count;
        self.shift_left(pos, end);
        self.count = self.count - 1;
        proof {
            assert(self.levels() =~= s.remove(pos as int));
        }
    }
}

impl BookSide for ImprovedSide {
    closed spec fn levels(&self) -> Seq<Level> {
        Seq::new(self.count as nat, |i: int| Level { price: self.prices@[i], quantity: self.qtys@[i] })
    }

    closed spec fn is_bid(&self) -> bool {
        self.is_b
    }

    open spec fn capacity(&self) -> Option<nat> {
        Some(MAX_LEVELS as nat)
    }

    closed spec fn inv(&self) -> bool {
        &&& self.count <= MAX_LEVELS
        &&& side_wf(self.levels(), self.is_b)
    }

    proof fn lemma_inv(&self) {
    }

    fn update_l(&mut self, price: Price, qty: Qty) {
        let ghost s = self.levels();
        proof {
            lemma_found_at_slot(s, self.is_b, price);
            lemma_with_level_wf(s, self.is_b, price, qty);
        }
        if self.count > 0 && self.prices[0] == price {
            proof {
                assert(s[0].price == price);
                assert forall|j: int| 0 <= j < s.len() implies !precedes(
                    self.is_b,
                    #[trigger] s[j].price,
                    price,
                ) by {
                    if j > 0 {
                        assert(precedes(self.is_b, s[0].price, s[j].price));
                    }
                }
                lemma_slot_unique(s, self.is_b, price, 0);
            }
            self.qtys[0] = qty;
            proof {
                assert(self.levels() =~= s.update(0, Level { price, quantity: qty }));
            }
            return;
        }
        match self.find_position(price) {
            Ok(pos) => {
                proof {
                    lemma_slot_unique(s, self.is_b, price, pos as int);
                }
                self.qtys[pos] = qty;
                proof {
                    assert(self.levels() =~= s.update(pos as int, Level { price, quantity: qty }));
                }
            },
            Err(pos) => {
                proof {
                    lemma_slot_unique(s, self.is_b, price, pos as int);
                }
                if self.count < MAX_LEVELS {
                    self.shift_right(pos);
                    self.prices[pos] = price;
                    self.qtys[pos] = qty;
                    self.count = self.count + 1;
                    proof {
                        assert(self.levels() =~= s.insert(pos as int, Level { price, quantity: qty }));
                    }
                }
            },
        }
    }

    fn remove_l(&mut self, price: Price) {
        let ghost s = self.levels();
        proof {
            lemma_found_at_slot(s, self.is_b, price);
            lemma_without_level_wf(s, self.is_b, price);
        }
        if self.count > 0 && self.prices[0] == price {
            proof {
                assert(s[0].price == price);
                assert forall|j: int| 0 <= j < s.len() implies !precedes(
                    self.is_b,
                    #[trigger] s[j].price,
                    price,
                ) by {
                    if j > 0 {
                        assert(precedes(self.is_b, s[0].price, s[j].price));
                    }
                }
                lemma_slot_unique(s, self.is_b, price, 0);
            }
            self.remove_at(0);
            return;
        }
        if let Ok(pos) = self.find_position(price) {
            proof {
                lemma_slot_unique(s, self.is_b, price, pos as int);
            }
            self.remove_at(pos);
        }
    }

    fn get_l(&self) -> (r: Vec<Level>) {
        let mut result: Vec<Level> = Vec::with_capacity(self.count);
        let mut i: usize = 0;
        while i < self.count
            invariant
                i <= self.count <= MAX_LEVELS,
                result@ =~= self.levels().take(i as int),
            decreases self.count - i,
        {
            result.push(Level { price: self.prices[i], quantity: self.qtys[i] });
            i = i + 1;
        }
        proof {
            assert(self.levels().take(i as int) =~= self.levels());
        }
        result
    }
}

/// The capacity of a fast side, as the model sees it.
pub open spec fn fast_capacity() -> Option<nat> {
    Some(MAX_LEVELS as nat)
}

/// The fast driver: `ImprovedSide` sides in an FNV-hashed registry. An update
/// whose side byte is neither 0 nor 1 is skipped rather than fatal.
pub struct ImprovedProcessor;

impl ImprovedProcessor {
    pub fn new() -> (r: Self)
        ensures
            r == ImprovedProcessor,
    {
        ImprovedProcessor
    }

    /// Builds the book that the snapshot record at `offset` describes.
    pub fn parse_snapshot(&self, data: &[u8], offset: usize) -> (r: Result<
        (SecurityId, SeqNo, Lob<ImprovedSide>),
        LobError,
    >)
        ensures
            offset + SNAPSHOT_SIZE > data@.len() <==> r is Err,
            r is Err ==> r->Err_0 == (LobError::Truncated { offset }),
            r is Ok ==> {
                let (id, seq, book) = r->Ok_0;
                &&& id == field(data@, offset + 16)
                &&& seq == field(data@, offset + 8)
                &&& book.wf()
                &&& book.security_id == id
                &&& book.bids.capacity() == fast_capacity()
                &&& book.asks.capacity() == fast_capacity()
                &&& view_of(book) == snapshot_book(data@, offset as int, fast_capacity())
            },
    {
        let rec = match decode_snapshot(data, offset) {
            Ok(rec) => rec,
            Err(e) => {
                return Err(e);
            },
        };
        let mut book = Lob::new(rec.security_id, ImprovedSide::new(true), ImprovedSide::new(false));
        book.last_update_seq = Some(rec.seq_no);
        book.load_levels(&rec.bids, &rec.asks);
        Ok((rec.security_id, rec.seq_no, book))
    }

    /// Applies one incremental record to the registry: nothing when
    /// `seq_no <= max_snapshot_seq`; otherwise the updates, in order, to the
    /// book of `security_id` (created empty when absent), which then records
    /// `seq_no`.
    pub fn apply_incremental(
        &self,
        books: &mut FnvBooks,
        max_snapshot_seq: SeqNo,
        security_id: SecurityId,
        seq_no: SeqNo,
        updates: &Vec<Update>,
    )
        requires
            registry_wf(old(books)@, fast_capacity()),
        ensures
            registry_wf(final(books)@, fast_capacity()),
            registry_view(final(books)@) == apply_record(
                registry_view(old(books)@),
                max_snapshot_seq,
                security_id,
                seq_no,
                updates@,
                fast_capacity(),
            ),
            seq_no <= max_snapshot_seq ==> final(books)@ == old(books)@,
            seq_no > max_snapshot_seq ==> final(books)@.contains_key(security_id)
                && final(books)@[security_id].last_update_seq == Some(seq_no),
    {
        if seq_no > max_snapshot_seq {
            let ghost m0 = books@;
            let mut book = match books.remove(security_id) {
                Some(b) => b,
                None => Lob::new(security_id, ImprovedSide::new(true), ImprovedSide::new(false)),
            };
            proof {
                let base: BookView = if m0.contains_key(security_id) {
                    registry_view(m0)[security_id]
                } else {
                    (security_id, Seq::empty(), Seq::empty(), None)
                };
                assert(view_of(book).0 == base.0 && view_of(book).1 == base.1 && view_of(book).2
                    == base.2);
            }
            book.apply_updates(updates);
            book.last_update_seq = Some(seq_no);
            books.insert(security_id, book);
            proof {
                assert(registry_view(books@) =~= apply_record(
                    registry_view(m0),
                    max_snapshot_seq,
                    security_id,
                    seq_no,
                    updates@,
                    fast_capacity(),
                ));
            }
        }
    }

    /// Replays a snapshot buffer, then an incremental buffer, into a fresh
    /// registry.
    pub fn process_bytes(&self, snapshot: &[u8], incremental: &[u8]) -> (r: Result<
        FnvBooks,
        LobError,
    >)
        ensures
            match r {
                Ok(books) => registry_wf(books@, fast_capacity()) && replay(
                    snapshot@,
                    incremental@,
                    fast_capacity(),
                    false,
                ) == Ok::<Map<SecurityId, BookView>, LobError>(registry_view(books@)),
                Err(e) => replay(snapshot@, incremental@, fast_capacity(), false) == Err::<
                    Map<SecurityId, BookView>,
                    LobError,
                >(e),
            },
    {
        let records = snapshot.len() / SNAPSHOT_SIZE;
        let mut books = FnvBooks::with_capacity(if records < 1024 { records } else { 1024 });
        let mut max_snapshot_seq: SeqNo = 0;
        let mut offset: usize = 0;
        proof {
            assert(registry_view(books@) =~= Map::empty());
        }
        while snapshot.len() >= SNAPSHOT_SIZE && offset <= snapshot.len() - SNAPSHOT_SIZE
            invariant
                registry_wf(books@, fast_capacity()),
                snapshot_pass(snapshot@, 0, Map::empty(), 0, fast_capacity()) == snapshot_pass(
                    snapshot@,
                    offset as int,
                    registry_view(books@),
                    max_snapshot_seq,
                    fast_capacity(),
                ),
            decreases snapshot@.len() - offset,
        {
            let ghost m0 = books@;
            let (security_id, seq_no, book) = match self.parse_snapshot(snapshot, offset) {
                Ok(t) => t,
                Err(e) => {
                    return Err(e);
                },
            };
            if seq_no > max_snapshot_seq {
                max_snapshot_seq = seq_no;
            }
            books.insert(security_id, book);
            proof {
                assert(registry_view(books@) =~= registry_view(m0).insert(security_id, view_of(book)));
            }
            offset = offset + SNAPSHOT_SIZE;
        }
        let mut offset: usize = 0;
        while incremental.len() >= INCREMENTAL_HEADER_SIZE && offset <= incremental.len()
            - INCREMENTAL_HEADER_SIZE
            invariant
                registry_wf(books@, fast_capacity()),
                replay(snapshot@, incremental@, fast_capacity(), false) == incremental_pass(
                    incremental@,
                    offset as int,
                    registry_view(books@),
                    max_snapshot_seq,
                    fast_capacity(),
                    false,
                ),
            decreases incremental@.len() - offset,
        {
            let rec = match decode_incremental(incremental, offset, false) {
                Ok(rec) => rec,
                Err(e) => {
                    return Err(e);
                },
            };
            self.apply_incremental(
                &mut books,
                max_snapshot_seq,
                rec.security_id,
                rec.seq_no,
                &rec.updates,
            );
            offset = rec.end;
        }
        Ok(books)
    }
}

impl Default for ImprovedProcessor {
    fn default() -> (r: Self)
        ensures
            r == ImprovedProcessor,
    {
        ImprovedProcessor::new()
    }
}

/// The state of the fast stream driver between two frames.
pub struct ImprovedStream {
    pub books: FnvBooks,
    pub in_snapshot_phase: bool,
    pub max_snapshot_seq: SeqNo,
}

impl ImprovedStream {
    pub fn new() -> (r: Self)
        ensures
            r.wf(),
            r.books@.dom() == Set::<SecurityId>::empty(),
            r.in_snapshot_phase,
            r.max_snapshot_seq == 0,
    {
        ImprovedStream { books: FnvBooks::with_capacity(1024), in_snapshot_phase: true, max_snapshot_seq: 0 }
    }

    pub open spec fn wf(&self) -> bool {
        registry_wf(self.books@, fast_capacity())
    }

    /// Takes one frame. On an error the state is left as it was.
    pub fn handle(&mut self, msg: StreamMessage) -> (r: Result<(), LobError>)
        requires
            old(self).wf(),
        ensures
            final(self).wf(),
            ({
                let (tag, data) = frame_of(msg);
                let step = stream_step(
                    registry_view(old(self).books@),
                    old(self).in_snapshot_phase,
                    old(self).max_snapshot_seq,
                    tag,
                    data,
                    fast_capacity(),
                    false,
                );
                match r {
                    Ok(_) => step == Ok::<(Map<SecurityId, BookView>, bool, SeqNo), LobError>(
                        (
                            registry_view(final(self).books@),
                            final(self).in_snapshot_phase,
                            final(self).max_snapshot_seq,
                        ),
                    ),
                    Err(e) => step == Err::<(Map<SecurityId, BookView>, bool, SeqNo), LobError>(e)
                        && final(self).books@ == old(self).books@
                        && final(self).in_snapshot_phase == old(self).in_snapshot_phase
                        && final(self).max_snapshot_seq == old(self).max_snapshot_seq,
                }
            }),
    {
        let processor = ImprovedProcessor::new();
        match msg {
            StreamMessage::Data(MessageType::Snapshot, data) => {
                if self.in_snapshot_phase {
                    let ghost m0 = self.books@;
                    let (security_id, seq_no, book) = match processor.parse_snapshot(&data, 0) {
                        Ok(t) => t,
                        Err(e) => {
                            return Err(e);
                        },
                    };
                    if seq_no > self.max_snapshot_seq {
                        self.max_snapshot_seq = seq_no;
                    }
                    self.books.insert(security_id, book);
                    proof {
                        assert(registry_view(self.books@) =~= registry_view(m0).insert(
                            security_id,
                            view_of(book),
                        ));
                    }
                }
                Ok(())
            },
            StreamMessage::Data(MessageType::Incremental, data) => {
                if !self.in_snapshot_phase {
                    let rec = match decode_incremental(&data, 0, false) {
                        Ok(rec) => rec,
                        Err(e) => {
                            return Err(e);
                        },
                    };
                    processor.apply_incremental(
                        &mut self.books,
                        self.max_snapshot_seq,
                        rec.security_id,
                        rec.seq_no,
                        &rec.updates,
                    );
                }
                Ok(())
            },
            _ => {
                self.in_snapshot_phase = false;
                Ok(())
            },
        }
    }
}

} // verus!
