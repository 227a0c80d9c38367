//! Decoders for the two fixed-layout records. All integers are little-endian;
//! a price is read as the 64-bit pattern of its binary64 value.
use vstd::prelude::*;
use crate::{
    side_of, Level, LobError, SecurityId, SeqNo, Side, Update, INCREMENTAL_HEADER_SIZE,
    INCREMENTAL_SIZE, SNAPSHOT_SIZE,
};
use crate::model::{is_level, price_is_positive};

verus! {

/// The unsigned value of the eight bytes at `at`, least significant first.
pub open spec fn le_u64(b: Seq<u8>, at: int) -> int {
    b[at] as int + b[at + 1] as int * 0x100 + b[at + 2] as int * 0x1_0000 + b[at + 3] as int
        * 0x100_0000 + b[at + 4] as int * 0x1_0000_0000 + b[at + 5] as int * 0x100_0000_0000
        + b[at + 6] as int * 0x1_0000_0000_0000 + b[at + 7] as int * 0x100_0000_0000_0000
}

pub fn read_u64_le(data: &[u8], at: usize) -> (r: u64)
    requires
        at + 8 <= data@.len(),
    ensures
        r as int == le_u64(data@, at as int),
{
    (data[at] as u64) + (data[at + 1] as u64) * 0x100 + (data[at + 2] as u64) * 0x1_0000
        + (data[at + 3] as u64) * 0x100_0000 + (data[at + 4] as u64) * 0x1_0000_0000
        + (data[at + 5] as u64) * 0x100_0000_0000 + (data[at + 6] as u64) * 0x1_0000_0000_0000
        + (data[at + 7] as u64) * 0x100_0000_0000_0000
}

pub open spec fn field(b: Seq<u8>, at: int) -> u64 {
    le_u64(b, at) as u64
}

/// Level slot `i` (0..5) of the snapshot record at `offset`, on one side.
pub open spec fn snapshot_slot(data: Seq<u8>, offset: int, i: int, is_bid: bool) -> Level {
    let at = offset + 24 + 32 * i + if is_bid { 0int } else { 16int };
    Level { price: field(data, at), quantity: field(data, at + 8) }
}

/// The levels present among the first `n` slots, in slot order; a slot with a
/// zero (or otherwise non-positive) price or a zero quantity holds none.
pub open spec fn snapshot_levels(data: Seq<u8>, offset: int, is_bid: bool, n: nat) -> Seq<Level>
    decreases n,
{
    if n == 0 {
        Seq::empty()
    } else {
        let prev = snapshot_levels(data, offset, is_bid, (n - 1) as nat);
        let l = snapshot_slot(data, offset, n - 1, is_bid);
        if is_level(l) {
            prev.push(l)
        } else {
            prev
        }
    }
}

/// A decoded snapshot record: its present levels per side, in slot order.
pub struct SnapshotRecord {
    pub timestamp_ms: u64,
    pub seq_no: SeqNo,
    pub security_id: SecurityId,
    pub bids: Vec<Level>,
    pub asks: Vec<Level>,
}

/// Decodes the snapshot record at `offset`.
pub fn decode_snapshot(data: &[u8], offset: usize) -> (r: Result<SnapshotRecord, LobError>)
    ensures
        offset + SNAPSHOT_SIZE > data@.len() <==> r == Err::<SnapshotRecord, LobError>(
            LobError::Truncated { offset },
        ),
        offset + SNAPSHOT_SIZE <= data@.len() <==> r is Ok,
        r is Ok ==> {
            let rec = r->Ok_0;
            &&& rec.timestamp_ms == field(data@, offset as int)
            &&& rec.seq_no == field(data@, offset + 8)
            &&& rec.security_id == field(data@, offset + 16)
            &&& rec.bids@ == snapshot_levels(data@, offset as int, true, 5)
            &&& rec.asks@ == snapshot_levels(data@, offset as int, false, 5)
        },
{
    if data.len() < SNAPSHOT_SIZE || offset > data.len() - SNAPSHOT_SIZE {
        return Err(LobError::Truncated { offset });
    }
    let timestamp_ms = read_u64_le(data, offset);
    let seq_no = read_u64_le(data, offset + 8);
    let security_id = read_u64_le(data, offset + 16);
    let mut bids: Vec<Level> = Vec::new();
    let mut asks: Vec<Level> = Vec::new();
    let mut i: usize = 0;
    while i < 5
        invariant
            i <= 5,
            offset + SNAPSHOT_SIZE <= data@.len() <= usize::MAX,
            bids@ == snapshot_levels(data@, offset as int, true, i as nat),
            asks@ == snapshot_levels(data@, offset as int, false, i as nat),
        decreases 5 - i,
    {
        let at = offset + 24 + 32 * i;
        let bid = Level { price: read_u64_le(data, at), quantity: read_u64_le(data, at + 8) };
        let ask = Level { price: read_u64_le(data, at + 16), quantity: read_u64_le(data, at + 24) };
        if price_is_positive(bid.price) && bid.quantity > 0 {
            bids.push(bid);
        }
        if price_is_positive(ask.price) && ask.quantity > 0 {
            asks.push(ask);
        }
        i = i + 1;
    }
    Ok(SnapshotRecord { timestamp_ms, seq_no, security_id, bids, asks })
}

/// Whether the incremental record at `offset` lies wholly inside the buffer:
/// its header, then as many updates as the header announces.
pub open spec fn incremental_fits(data: Seq<u8>, offset: int) -> bool {
    &&& offset + INCREMENTAL_HEADER_SIZE <= data.len()
    &&& offset + INCREMENTAL_HEADER_SIZE + INCREMENTAL_SIZE * le_u64(data, offset + 24) <= data.len()
}

/// The updates among the first `n` of the record body that starts at `start`,
/// in order; an update whose side byte is neither 0 nor 1 is left out.
pub open spec fn incremental_updates(data: Seq<u8>, start: int, n: nat) -> Seq<Update>
    decreases n,
{
    if n == 0 {
        Seq::empty()
    } else {
        let prev = incremental_updates(data, start, (n - 1) as nat);
        let at = start + INCREMENTAL_SIZE * (n - 1);
        match side_of(data[at]) {
            Some(side) => prev.push(
                Update { side, price: field(data, at + 1), qty: field(data, at + 9) },
            ),
            None => prev,
        }
    }
}

/// The first side byte among the first `n` updates that is neither 0 nor 1.
pub open spec fn first_bad_side(data: Seq<u8>, start: int, n: nat) -> Option<u8>
    decreases n,
{
    if n == 0 {
        None
    } else {
        match first_bad_side(data, start, (n - 1) as nat) {
            Some(b) => Some(b),
            None => {
                let b = data[start + INCREMENTAL_SIZE * (n - 1)];
                if b > 1 {
                    Some(b)
                } else {
                    None
                }
            },
        }
    }
}

/// The offset just past the incremental record at `offset`.
pub open spec fn incremental_end(data: Seq<u8>, offset: int) -> int {
    offset + INCREMENTAL_HEADER_SIZE + INCREMENTAL_SIZE * le_u64(data, offset + 24)
}

/// A decoded incremental record; `end` is the offset just past it.
pub struct IncrementalRecord {
    pub timestamp_ms: u64,
    pub seq_no: SeqNo,
    pub security_id: SecurityId,
    pub updates: Vec<Update>,
    pub end: usize,
}

/// Decodes the incremental record at `offset`. With `strict`, a side byte
/// other than 0 or 1 fails the record; without, that update is left out.
pub fn decode_incremental(data: &[u8], offset: usize, strict: bool) -> (r: Result<
    IncrementalRecord,
    LobError,
>)
    ensures
        !incremental_fits(data@, offset as int) ==> r == Err::<IncrementalRecord, LobError>(
            LobError::Truncated { offset },
        ),
        incremental_fits(data@, offset as int) && strict && first_bad_side(
            data@,
            offset + INCREMENTAL_HEADER_SIZE,
            le_u64(data@, offset + 24) as nat,
        ) is Some ==> r == Err::<IncrementalRecord, LobError>(
            LobError::InvalidSide {
                side: first_bad_side(
                    data@,
                    offset + INCREMENTAL_HEADER_SIZE,
                    le_u64(data@, offset + 24) as nat,
                )->Some_0,
            },
        ),
        r is Ok <==> incremental_fits(data@, offset as int) && !(strict && first_bad_side(
            data@,
            offset + INCREMENTAL_HEADER_SIZE,
            le_u64(data@, offset + 24) as nat,
        ) is Some),
        r is Ok ==> {
            let rec = r->Ok_0;
            &&& rec.timestamp_ms == field(data@, offset as int)
            &&& rec.seq_no == field(data@, offset + 8)
            &&& rec.security_id == field(data@, offset + 16)
            &&& rec.updates@ == incremental_updates(
                data@,
                offset + INCREMENTAL_HEADER_SIZE,
                le_u64(data@, offset + 24) as nat,
            )
            &&& rec.end == incremental_end(data@, offset as int)
        },
{
    if data.len() < INCREMENTAL_HEADER_SIZE || offset > data.len() - INCREMENTAL_HEADER_SIZE {
        return Err(LobError::Truncated { offset });
    }
    let timestamp_ms = read_u64_le(data, offset);
    let seq_no = read_u64_le(data, offset + 8);
    let security_id = read_u64_le(data, offset + 16);
    let num_updates = read_u64_le(data, offset + 24);
    let start = offset + INCREMENTAL_HEADER_SIZE;
    let room = data.len() - start;
    if num_updates > (room / INCREMENTAL_SIZE) as u64 {
        proof {
            assert(INCREMENTAL_SIZE * num_updates > room) by (nonlinear_arith)
                requires
                    num_updates > room / 17,
                    INCREMENTAL_SIZE == 17,
            ;
        }
        return Err(LobError::Truncated { offset });
    }
    proof {
        assert(INCREMENTAL_SIZE * num_updates <= room) by (nonlinear_arith)
            requires
                num_updates <= room / 17,
                INCREMENTAL_SIZE == 17,
        ;
    }
    let n = num_updates as usize;
    let mut updates: Vec<Update> = Vec::new();
    let mut i: usize = 0;
    while i < n
        invariant
            i <= n,
            n == le_u64(data@, offset + 24),
            start == offset + INCREMENTAL_HEADER_SIZE,
            start + INCREMENTAL_SIZE * n <= data@.len() <= usize::MAX,
            updates@ == incremental_updates(data@, start as int, i as nat),
            strict ==> first_bad_side(data@, start as int, i as nat) is None,
        decreases n - i,
    {
        proof {
            assert(INCREMENTAL_SIZE * i + INCREMENTAL_SIZE <= INCREMENTAL_SIZE * n) by (nonlinear_arith)
                requires
                    i < n,
                    INCREMENTAL_SIZE == 17,
            ;
        }
        let at = start + INCREMENTAL_SIZE * i;
        let side_byte = data[at];
        let price = read_u64_le(data, at + 1);
        let qty = read_u64_le(data, at + 9);
        match Side::from_u8(side_byte) {
            Some(side) => {
                updates.push(Update { side, price, qty });
            },
            None => {
                if strict {
                    proof {
                        assert(first_bad_side(data@, start as int, (i + 1) as nat) == Some(side_byte));
                        lemma_first_bad_side_stays(data@, start as int, (i + 1) as nat, n as nat);
                    }
                    return Err(LobError::InvalidSide { side: side_byte });
                }
            },
        }
        i = i + 1;
    }
    Ok(IncrementalRecord { timestamp_ms, seq_no, security_id, updates, end: start + INCREMENTAL_SIZE * n })
}

proof fn lemma_first_bad_side_stays(data: Seq<u8>, start: int, i: nat, n: nat)
    requires
        i <= n,
        first_bad_side(data, start, i) is Some,
    ensures
        first_bad_side(data, start, n) == first_bad_side(data, start, i),
    decreases n - i,
{
    if i < n {
        lemma_first_bad_side_stays(data, start, i, (n - 1) as nat);
    }
}

} // verus!
