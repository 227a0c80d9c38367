use lob_processor::basic::{Basic, BasicProcessor, BasicStream};
use lob_processor::improved::{ImprovedProcessor, ImprovedSide, ImprovedStream};
use lob_processor::{BookSide, Level, LobError, MessageType, StreamMessage};

fn put_u64(out: &mut Vec<u8>, v: u64) {
    out.extend_from_slice(&v.to_le_bytes());
}

fn snapshot_record(seq: u64, id: u64, bids: &[(f64, u64)], asks: &[(f64, u64)]) -> Vec<u8> {
    let mut out = Vec::new();
    put_u64(&mut out, 1_700_000_000_000);
    put_u64(&mut out, seq);
    put_u64(&mut out, id);
    for i in 0..5 {
        let (bp, bq) = bids.get(i).copied().unwrap_or((0.0, 0));
        let (ap, aq) = asks.get(i).copied().unwrap_or((0.0, 0));
        put_u64(&mut out, bp.to_bits());
        put_u64(&mut out, bq);
        put_u64(&mut out, ap.to_bits());
        put_u64(&mut out, aq);
    }
    // The layout fills 184 bytes; records are laid out 208 bytes apart.
    out.resize(208, 0);
    out
}

fn incremental_record(seq: u64, id: u64, updates: &[(u8, f64, u64)]) -> Vec<u8> {
    let mut out = Vec::new();
    put_u64(&mut out, 1_700_000_000_000);
    put_u64(&mut out, seq);
    put_u64(&mut out, id);
    put_u64(&mut out, updates.len() as u64);
    for &(side, price, qty) in updates {
        out.push(side);
        put_u64(&mut out, price.to_bits());
        put_u64(&mut out, qty);
    }
    out
}

fn pairs(levels: Vec<Level>) -> Vec<(f64, u64)> {
    levels.into_iter().map(|l| (f64::from_bits(l.price), l.quantity)).collect()
}

const BIDS: [(f64, u64); 5] = [(100.00, 500), (99.99, 400), (99.98, 300), (99.97, 200), (99.96, 100)];
const ASKS: [(f64, u64); 5] = [(100.01, 500), (100.02, 400), (100.03, 300), (100.04, 200), (100.05, 100)];

#[test]
fn snapshot_only_basic() {
    let snap = snapshot_record(0, 1, &BIDS, &ASKS);
    let books = BasicProcessor::new().process_bytes(&snap, &[]).unwrap();
    assert_eq!(books.len(), 1);
    let book = &books[&1];
    assert_eq!(book.security_id, 1);
    assert_eq!(pairs(book.bids.get_l()), BIDS.to_vec());
    assert_eq!(pairs(book.asks.get_l()), ASKS.to_vec());
    assert_eq!(book.last_update_seq, Some(0));
}

#[test]
fn snapshot_only_improved() {
    let snap = snapshot_record(0, 1, &BIDS, &ASKS);
    let books = ImprovedProcessor::new().process_bytes(&snap, &[]).unwrap();
    assert_eq!(books.security_ids(), vec![1]);
    let book = books.book(1).unwrap();
    assert_eq!(pairs(book.bids.get_l()), BIDS.to_vec());
    assert_eq!(pairs(book.asks.get_l()), ASKS.to_vec());
    assert_eq!(book.last_update_seq, Some(0));
}

#[test]
fn snapshot_levels_are_put_in_order() {
    let shuffled_bids = [(99.98, 300), (100.00, 500), (99.96, 100), (99.99, 400), (99.97, 200)];
    let shuffled_asks = [(100.05, 100), (100.01, 500), (100.03, 300), (100.02, 400), (100.04, 200)];
    let snap = snapshot_record(3, 9, &shuffled_bids, &shuffled_asks);
    let books = BasicProcessor::new().process_bytes(&snap, &[]).unwrap();
    assert_eq!(pairs(books[&9].bids.get_l()), BIDS.to_vec());
    assert_eq!(pairs(books[&9].asks.get_l()), ASKS.to_vec());
    let fast = ImprovedProcessor::new().process_bytes(&snap, &[]).unwrap();
    assert_eq!(pairs(fast.book(9).unwrap().bids.get_l()), BIDS.to_vec());
    assert_eq!(pairs(fast.book(9).unwrap().asks.get_l()), ASKS.to_vec());
}

#[test]
fn empty_snapshot_slots_are_skipped() {
    let snap = snapshot_record(5, 2, &[(100.0, 10), (0.0, 7), (99.0, 0)], &[(101.0, 3)]);
    let books = BasicProcessor::new().process_bytes(&snap, &[]).unwrap();
    assert_eq!(pairs(books[&2].bids.get_l()), vec![(100.0, 10)]);
    assert_eq!(pairs(books[&2].asks.get_l()), vec![(101.0, 3)]);
}

#[test]
fn sequence_skip() {
    let snap = snapshot_record(1000, 1, &BIDS, &ASKS);
    let inc = incremental_record(500, 1, &[(0, 100.00, 0)]);
    let books = BasicProcessor::new().process_bytes(&snap, &inc).unwrap();
    assert_eq!(pairs(books[&1].bids.get_l())[0], (100.00, 500));
    assert_eq!(books[&1].last_update_seq, Some(1000));
    let fast = ImprovedProcessor::new().process_bytes(&snap, &inc).unwrap();
    assert_eq!(pairs(fast.book(1).unwrap().bids.get_l())[0], (100.00, 500));
}

#[test]
fn update_and_delete() {
    let snap = snapshot_record(0, 1, &BIDS, &ASKS);
    let inc = incremental_record(1001, 1, &[(0, 100.00, 750), (0, 99.99, 0)]);
    let expected = vec![(100.00, 750), (99.98, 300), (99.97, 200), (99.96, 100)];
    let books = BasicProcessor::new().process_bytes(&snap, &inc).unwrap();
    assert_eq!(pairs(books[&1].bids.get_l()), expected);
    assert_eq!(pairs(books[&1].asks.get_l()), ASKS.to_vec());
    assert_eq!(books[&1].last_update_seq, Some(1001));
    let fast = ImprovedProcessor::new().process_bytes(&snap, &inc).unwrap();
    assert_eq!(pairs(fast.book(1).unwrap().bids.get_l()), expected);
    assert_eq!(fast.book(1).unwrap().last_update_seq, Some(1001));
}

#[test]
fn insert_into_middle() {
    let mut basic = Basic::new(true);
    basic.update_l(100.00f64.to_bits(), 11);
    basic.update_l(99.98f64.to_bits(), 22);
    basic.update_l(99.99f64.to_bits(), 33);
    assert_eq!(pairs(basic.get_l()), vec![(100.00, 11), (99.99, 33), (99.98, 22)]);
    let mut fast = ImprovedSide::new(true);
    fast.update_l(100.00f64.to_bits(), 11);
    fast.update_l(99.98f64.to_bits(), 22);
    fast.update_l(99.99f64.to_bits(), 33);
    assert_eq!(pairs(fast.get_l()), vec![(100.00, 11), (99.99, 33), (99.98, 22)]);
}

#[test]
fn late_joiner() {
    let inc = incremental_record(2000, 7, &[(1, 50.0, 10)]);
    let books = BasicProcessor::new().process_bytes(&[], &inc).unwrap();
    assert_eq!(books[&7].security_id, 7);
    assert_eq!(pairs(books[&7].asks.get_l()), vec![(50.0, 10)]);
    assert!(books[&7].bids.get_l().is_empty());
    assert_eq!(books[&7].last_update_seq, Some(2000));
    let fast = ImprovedProcessor::new().process_bytes(&[], &inc).unwrap();
    assert_eq!(pairs(fast.book(7).unwrap().asks.get_l()), vec![(50.0, 10)]);
    assert_eq!(fast.book(7).unwrap().last_update_seq, Some(2000));
}

#[test]
fn late_joiner_beside_snapshot() {
    let snap = snapshot_record(100, 1, &BIDS, &ASKS);
    let inc = incremental_record(2000, 7, &[(1, 50.0, 10)]);
    let books = BasicProcessor::new().process_bytes(&snap, &inc).unwrap();
    assert_eq!(books.len(), 2);
    assert_eq!(books[&1].last_update_seq, Some(100));
    assert_eq!(books[&7].last_update_seq, Some(2000));
}

fn phase_frames() -> Vec<StreamMessage> {
    let delete = incremental_record(11, 1, &[(0, 100.00, 0)]);
    vec![
        StreamMessage::Data(MessageType::Snapshot, snapshot_record(10, 1, &BIDS, &ASKS)),
        StreamMessage::Data(MessageType::Incremental, delete.clone()),
        StreamMessage::EndOfSnapshot,
        StreamMessage::Data(MessageType::Incremental, delete),
    ]
}

#[test]
fn phase_filter_on_stream() {
    let mut state = BasicStream::new();
    let mut frames = phase_frames().into_iter();
    state.handle(frames.next().unwrap()).unwrap();
    state.handle(frames.next().unwrap()).unwrap();
    assert_eq!(pairs(state.books[&1].bids.get_l())[0], (100.00, 500));
    assert_eq!(state.books[&1].last_update_seq, Some(10));
    state.handle(frames.next().unwrap()).unwrap();
    assert!(!state.in_snapshot_phase);
    assert_eq!(state.max_snapshot_seq, 10);
    state.handle(frames.next().unwrap()).unwrap();
    assert_eq!(pairs(state.books[&1].bids.get_l())[0], (99.99, 400));
    assert_eq!(state.books[&1].bids.get_l().len(), 4);
    assert_eq!(state.books[&1].last_update_seq, Some(11));
}

#[test]
fn phase_filter_on_fast_stream() {
    let mut state = ImprovedStream::new();
    let mut frames = phase_frames().into_iter();
    state.handle(frames.next().unwrap()).unwrap();
    state.handle(frames.next().unwrap()).unwrap();
    assert_eq!(pairs(state.books.book(1).unwrap().bids.get_l())[0], (100.00, 500));
    state.handle(frames.next().unwrap()).unwrap();
    assert_eq!(state.max_snapshot_seq, 10);
    state.handle(frames.next().unwrap()).unwrap();
    assert_eq!(pairs(state.books.book(1).unwrap().bids.get_l())[0], (99.99, 400));
}

#[test]
fn stray_snapshot_after_phase_is_ignored() {
    let mut state = BasicStream::new();
    state.handle(StreamMessage::Data(MessageType::EndOfSnapshot, Vec::new())).unwrap();
    assert!(!state.in_snapshot_phase);
    state.handle(StreamMessage::Data(MessageType::Snapshot, snapshot_record(10, 1, &BIDS, &ASKS))).unwrap();
    assert!(state.books.is_empty());
    assert_eq!(state.max_snapshot_seq, 0);
    state.handle(StreamMessage::EndOfSnapshot).unwrap();
    assert!(!state.in_snapshot_phase);
}

#[test]
fn stream_max_snapshot_seq_is_the_largest() {
    let mut state = BasicStream::new();
    state.handle(StreamMessage::Data(MessageType::Snapshot, snapshot_record(30, 1, &BIDS, &ASKS))).unwrap();
    state.handle(StreamMessage::Data(MessageType::Snapshot, snapshot_record(20, 2, &BIDS, &ASKS))).unwrap();
    assert_eq!(state.max_snapshot_seq, 30);
    assert_eq!(state.books.len(), 2);
}

#[test]
fn short_snapshot_frame_is_truncated() {
    let mut state = BasicStream::new();
    let r = state.handle(StreamMessage::Data(MessageType::Snapshot, vec![0u8; 100]));
    assert_eq!(r, Err(LobError::Truncated { offset: 0 }));
    assert!(state.books.is_empty());
    let mut fast = ImprovedStream::new();
    let r = fast.handle(StreamMessage::Data(MessageType::Snapshot, vec![0u8; 207]));
    assert_eq!(r, Err(LobError::Truncated { offset: 0 }));
}

#[test]
fn incremental_with_too_few_update_bytes_is_truncated() {
    let snap = snapshot_record(1, 1, &BIDS, &ASKS);
    let good = incremental_record(5, 1, &[(0, 100.0, 1)]);
    let mut bad = incremental_record(6, 1, &[(0, 100.0, 1), (1, 101.0, 2)]);
    bad.truncate(bad.len() - 1);
    let mut inc = good.clone();
    inc.extend_from_slice(&bad);
    let r = BasicProcessor::new().process_bytes(&snap, &inc);
    assert_eq!(r.err(), Some(LobError::Truncated { offset: good.len() }));
    let r = ImprovedProcessor::new().process_bytes(&snap, &inc);
    assert_eq!(r.err(), Some(LobError::Truncated { offset: good.len() }));
}

#[test]
fn huge_update_count_is_truncated() {
    let mut inc = incremental_record(6, 1, &[]);
    inc[24..32].copy_from_slice(&u64::MAX.to_le_bytes());
    let r = BasicProcessor::new().process_bytes(&[], &inc);
    assert_eq!(r.err(), Some(LobError::Truncated { offset: 0 }));
}

#[test]
fn invalid_side_is_fatal_for_reference() {
    let inc = incremental_record(6, 1, &[(0, 100.0, 1), (2, 101.0, 2), (5, 102.0, 3)]);
    let r = BasicProcessor::new().process_bytes(&[], &inc);
    assert_eq!(r.err(), Some(LobError::InvalidSide { side: 2 }));
    let mut state = BasicStream::new();
    state.handle(StreamMessage::EndOfSnapshot).unwrap();
    let r = state.handle(StreamMessage::Data(MessageType::Incremental, inc));
    assert_eq!(r, Err(LobError::InvalidSide { side: 2 }));
    assert!(state.books.is_empty());
}

#[test]
fn invalid_side_is_skipped_by_fast() {
    let inc = incremental_record(6, 1, &[(0, 100.0, 1), (2, 101.0, 2), (1, 102.0, 3)]);
    let books = ImprovedProcessor::new().process_bytes(&[], &inc).unwrap();
    let book = books.book(1).unwrap();
    assert_eq!(pairs(book.bids.get_l()), vec![(100.0, 1)]);
    assert_eq!(pairs(book.asks.get_l()), vec![(102.0, 3)]);
}

#[test]
fn trailing_partial_records_are_ignored() {
    let mut snap = snapshot_record(1, 1, &BIDS, &ASKS);
    snap.extend_from_slice(&[1, 2, 3]);
    let mut inc = incremental_record(5, 1, &[(0, 100.0, 9)]);
    inc.extend_from_slice(&[0u8; 31]);
    let books = BasicProcessor::new().process_bytes(&snap, &inc).unwrap();
    assert_eq!(pairs(books[&1].bids.get_l())[0], (100.0, 9));
}

#[test]
fn later_snapshot_replaces_book() {
    let mut snap = snapshot_record(1, 1, &BIDS, &ASKS);
    snap.extend_from_slice(&snapshot_record(2, 1, &[(90.0, 1)], &[(91.0, 1)]));
    let books = BasicProcessor::new().process_bytes(&snap, &[]).unwrap();
    assert_eq!(pairs(books[&1].bids.get_l()), vec![(90.0, 1)]);
    assert_eq!(books[&1].last_update_seq, Some(2));
}

#[test]
fn gate_uses_maximum_over_all_securities() {
    let mut snap = snapshot_record(50, 1, &BIDS, &ASKS);
    snap.extend_from_slice(&snapshot_record(10, 2, &BIDS, &ASKS));
    let inc = incremental_record(20, 2, &[(0, 100.00, 0)]);
    let books = BasicProcessor::new().process_bytes(&snap, &inc).unwrap();
    assert_eq!(pairs(books[&2].bids.get_l())[0], (100.00, 500));
    assert_eq!(books[&2].last_update_seq, Some(10));
}

#[test]
fn fast_registry_lists_every_security() {
    let mut snap = snapshot_record(1, 3, &BIDS, &ASKS);
    snap.extend_from_slice(&snapshot_record(1, 8, &BIDS, &ASKS));
    let inc = incremental_record(5, 4, &[(1, 60.0, 2)]);
    let books = ImprovedProcessor::new().process_bytes(&snap, &inc).unwrap();
    let mut ids = books.security_ids();
    ids.sort();
    assert_eq!(ids, vec![3, 4, 8]);
    assert!(books.book(5).is_none());
    assert_eq!(books.book(8).unwrap().security_id, 8);
}
