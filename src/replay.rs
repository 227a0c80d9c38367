//! What a replay produces: the registry of books, stated over the bytes of
//! the two feeds.
use vstd::prelude::*;
use crate::{
    Level, LobError, MessageType, SecurityId, SeqNo, StreamMessage, Update, INCREMENTAL_HEADER_SIZE,
    SNAPSHOT_SIZE,
};
use crate::book::{BookSide, Lob};
use crate::codec::{
    field, first_bad_side, incremental_end, incremental_fits, incremental_updates, le_u64,
    snapshot_levels,
};
use crate::model::{load_side, replay_side};

verus! {

/// A book as values: security id, bids best first, asks best first, and the
/// sequence number last applied.
pub type BookView = (SecurityId, Seq<Level>, Seq<Level>, Option<SeqNo>);

pub open spec fn view_of<B: BookSide>(b: Lob<B>) -> BookView {
    (b.security_id, b.bids.levels(), b.asks.levels(), b.last_update_seq)
}

pub open spec fn registry_view<B: BookSide>(m: Map<SecurityId, Lob<B>>) -> Map<SecurityId, BookView> {
    m.map_values(|b: Lob<B>| view_of(b))
}

/// Every book is well formed, filed under its own id, and has sides of the
/// given capacity.
pub open spec fn registry_wf<B: BookSide>(m: Map<SecurityId, Lob<B>>, capacity: Option<nat>) -> bool {
    forall|k: SecurityId|
        #[trigger] m.contains_key(k) ==> {
            &&& m[k].wf()
            &&& m[k].security_id == k
            &&& m[k].bids.capacity() == capacity
            &&& m[k].asks.capacity() == capacity
        }
}

/// The book that the snapshot record at `offset` describes.
pub open spec fn snapshot_book(data: Seq<u8>, offset: int, capacity: Option<nat>) -> BookView {
    (
        field(data, offset + 16),
        load_side(true, capacity, snapshot_levels(data, offset, true, 5)),
        load_side(false, capacity, snapshot_levels(data, offset, false, 5)),
        Some(field(data, offset + 8)),
    )
}

/// The snapshot pass from `offset` on: each whole record replaces the book of
/// its security and raises the running maximum sequence number; a tail
/// shorter than a record is ignored.
pub open spec fn snapshot_pass(
    data: Seq<u8>,
    offset: int,
    books: Map<SecurityId, BookView>,
    max_seq: SeqNo,
    capacity: Option<nat>,
) -> (Map<SecurityId, BookView>, SeqNo)
    decreases data.len() - offset,
{
    if offset < 0 || offset + SNAPSHOT_SIZE > data.len() {
        (books, max_seq)
    } else {
        let seq = field(data, offset + 8);
        snapshot_pass(
            data,
            offset + SNAPSHOT_SIZE,
            books.insert(field(data, offset + 16), snapshot_book(data, offset, capacity)),
            if seq > max_seq {
                seq
            } else {
                max_seq
            },
            capacity,
        )
    }
}

/// One incremental record applied to the registry. A record at or below the
/// snapshot maximum changes nothing; otherwise its updates go, in order, to
/// the book of its security (a new empty one if there is none), which then
/// records `seq_no`.
pub open spec fn apply_record(
    books: Map<SecurityId, BookView>,
    max_seq: SeqNo,
    security_id: SecurityId,
    seq_no: SeqNo,
    updates: Seq<Update>,
    capacity: Option<nat>,
) -> Map<SecurityId, BookView> {
    if seq_no <= max_seq {
        books
    } else {
        let base: BookView = if books.contains_key(security_id) {
            books[security_id]
        } else {
            (security_id, Seq::empty(), Seq::empty(), None)
        };
        books.insert(
            security_id,
            (
                base.0,
                replay_side(base.1, true, capacity, updates),
                replay_side(base.2, false, capacity, updates),
                Some(seq_no),
            ),
        )
    }
}

/// The incremental pass from `offset` on, over records in buffer order,
/// until fewer bytes than a header remain.
pub open spec fn incremental_pass(
    data: Seq<u8>,
    offset: int,
    books: Map<SecurityId, BookView>,
    max_seq: SeqNo,
    capacity: Option<nat>,
    strict: bool,
) -> Result<Map<SecurityId, BookView>, LobError>
    decreases data.len() - offset,
{
    if offset < 0 || offset + INCREMENTAL_HEADER_SIZE > data.len() {
        Ok(books)
    } else if !incremental_fits(data, offset) {
        Err(LobError::Truncated { offset: offset as usize })
    } else {
        let n = le_u64(data, offset + 24) as nat;
        let bad = first_bad_side(data, offset + INCREMENTAL_HEADER_SIZE, n);
        if strict && bad is Some {
            Err(LobError::InvalidSide { side: bad->Some_0 })
        } else {
            incremental_pass(
                data,
                incremental_end(data, offset),
                apply_record(
                    books,
                    max_seq,
                    field(data, offset + 16),
                    field(data, offset + 8),
                    incremental_updates(data, offset + INCREMENTAL_HEADER_SIZE, n),
                    capacity,
                ),
                max_seq,
                capacity,
                strict,
            )
        }
    }
}

/// A whole replay: the snapshot pass, then the incremental pass filtered by
/// the largest snapshot sequence number.
pub open spec fn replay(
    snapshot: Seq<u8>,
    incremental: Seq<u8>,
    capacity: Option<nat>,
    strict: bool,
) -> Result<Map<SecurityId, BookView>, LobError> {
    let (books, max_seq) = snapshot_pass(snapshot, 0, Map::empty(), 0, capacity);
    incremental_pass(incremental, 0, books, max_seq, capacity, strict)
}

/// A stream frame as values: its tag (`None` for the control frame that ends
/// the snapshot phase) and its bytes.
pub open spec fn frame_of(msg: StreamMessage) -> (Option<MessageType>, Seq<u8>) {
    match msg {
        StreamMessage::Data(t, bytes) => (Some(t), bytes@),
        StreamMessage::EndOfSnapshot => (None, Seq::empty()),
    }
}

/// One frame of the stream applied to the registry, the phase flag and the
/// running maximum snapshot sequence number. Snapshots count only in the
/// snapshot phase and incrementals only after it; the end of the snapshot
/// phase, as a control frame or as a tag, ends it for good. Each record is
/// decoded at offset 0.
pub open spec fn stream_step(
    books: Map<SecurityId, BookView>,
    in_snapshot_phase: bool,
    max_seq: SeqNo,
    tag: Option<MessageType>,
    data: Seq<u8>,
    capacity: Option<nat>,
    strict: bool,
) -> Result<(Map<SecurityId, BookView>, bool, SeqNo), LobError> {
    match tag {
        Some(MessageType::Snapshot) => {
            if !in_snapshot_phase {
                Ok((books, in_snapshot_phase, max_seq))
            } else if SNAPSHOT_SIZE > data.len() {
                Err(LobError::Truncated { offset: 0 })
            } else {
                let seq = field(data, 8);
                Ok(
                    (
                        books.insert(field(data, 16), snapshot_book(data, 0, capacity)),
                        true,
                        if seq > max_seq {
                            seq
                        } else {
                            max_seq
                        },
                    ),
                )
            }
        },
        Some(MessageType::Incremental) => {
            let n = le_u64(data, 24) as nat;
            let bad = first_bad_side(data, INCREMENTAL_HEADER_SIZE as int, n);
            if in_snapshot_phase {
                Ok((books, in_snapshot_phase, max_seq))
            } else if !incremental_fits(data, 0) {
                Err(LobError::Truncated { offset: 0 })
            } else if strict && bad is Some {
                Err(LobError::InvalidSide { side: bad->Some_0 })
            } else {
                Ok(
                    (
                        apply_record(
                            books,
                            max_seq,
                            field(data, 16),
                            field(data, 8),
                            incremental_updates(data, INCREMENTAL_HEADER_SIZE as int, n),
                            capacity,
                        ),
                        false,
                        max_seq,
                    ),
                )
            }
        },
        _ => Ok((books, false, max_seq)),
    }
}

} // verus!
