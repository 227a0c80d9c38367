use lob_processor::basic::{Basic, BasicProcessor};
use lob_processor::codec::{decode_incremental, decode_snapshot, read_u64_le};
use lob_processor::improved::{ImprovedProcessor, ImprovedSide, MAX_LEVELS};
use lob_processor::model::price_is_positive;
use lob_processor::{BookSide, Level, Lob, LobError, MessageType, Side};

fn p(x: f64) -> u64 {
    x.to_bits()
}

fn prices(levels: &[Level]) -> Vec<f64> {
    levels.iter().map(|l| f64::from_bits(l.price)).collect()
}

fn check_side(levels: &[Level], is_bid: bool) {
    for w in levels.windows(2) {
        let (a, b) = (f64::from_bits(w[0].price), f64::from_bits(w[1].price));
        if is_bid {
            assert!(a > b);
        } else {
            assert!(a < b);
        }
    }
    for l in levels {
        assert!(f64::from_bits(l.price) > 0.0);
        assert!(l.quantity > 0);
    }
}

// A small deterministic generator for update sequences.
fn next(state: &mut u64) -> u64 {
    *state = state.wrapping_mul(6364136223846793005).wrapping_add(1442695040888963407);
    *state >> 33
}

#[test]
fn ordering_uniqueness_positivity_hold_after_each_change() {
    for &is_bid in &[true, false] {
        let mut basic = Basic::new(is_bid);
        let mut fast = ImprovedSide::new(is_bid);
        let mut seed = 42u64;
        for _ in 0..400 {
            let price = p(90.0 + (next(&mut seed) % 20) as f64 * 0.5);
            let qty = if next(&mut seed) % 3 == 0 { 0 } else { 1 + next(&mut seed) % 100 };
            if qty == 0 {
                basic.remove_l(price);
                fast.remove_l(price);
            } else {
                basic.update_l(price, qty);
                fast.update_l(price, qty);
            }
            check_side(&basic.get_l(), is_bid);
            check_side(&fast.get_l(), is_bid);
        }
    }
}

#[test]
fn remove_absent_leaves_side_unchanged() {
    let mut basic = Basic::new(false);
    basic.update_l(p(10.0), 1);
    basic.update_l(p(11.0), 2);
    let before = basic.get_l();
    basic.remove_l(p(10.5));
    assert_eq!(basic.get_l(), before);
    let mut fast = ImprovedSide::new(false);
    fast.update_l(p(10.0), 1);
    fast.update_l(p(11.0), 2);
    let before = fast.get_l();
    fast.remove_l(p(12.0));
    fast.remove_l(p(9.0));
    assert_eq!(fast.get_l(), before);
}

#[test]
fn update_on_existing_price_replaces_quantity() {
    let mut basic = Basic::new(true);
    basic.update_l(p(10.0), 1);
    basic.update_l(p(9.0), 2);
    basic.update_l(p(8.0), 3);
    basic.update_l(p(9.0), 20);
    assert_eq!(
        basic.get_l(),
        vec![
            Level { price: p(10.0), quantity: 1 },
            Level { price: p(9.0), quantity: 20 },
            Level { price: p(8.0), quantity: 3 }
        ]
    );
    let mut fast = ImprovedSide::new(true);
    fast.update_l(p(10.0), 1);
    fast.update_l(p(9.0), 2);
    fast.update_l(p(10.0), 7);
    assert_eq!(fast.get_l(), vec![Level { price: p(10.0), quantity: 7 }, Level { price: p(9.0), quantity: 2 }]);
}

#[test]
fn reference_and_fast_agree_within_capacity() {
    for &is_bid in &[true, false] {
        let mut basic = Basic::new(is_bid);
        let mut fast = ImprovedSide::new(is_bid);
        let mut seed = 7u64;
        for _ in 0..1000 {
            let price = p(50.0 + (next(&mut seed) % 30) as f64 * 0.25);
            let qty = if next(&mut seed) % 4 == 0 { 0 } else { 1 + next(&mut seed) % 9 };
            if qty == 0 {
                basic.remove_l(price);
                fast.remove_l(price);
            } else {
                basic.update_l(price, qty);
                fast.update_l(price, qty);
            }
            assert!(basic.get_l().len() <= MAX_LEVELS);
            assert_eq!(basic.get_l(), fast.get_l());
        }
    }
}

#[test]
fn fast_side_drops_insert_when_full() {
    let mut fast = ImprovedSide::new(false);
    let mut basic = Basic::new(false);
    for i in 0..MAX_LEVELS {
        fast.update_l(p(100.0 + i as f64), 1);
        basic.update_l(p(100.0 + i as f64), 1);
    }
    assert_eq!(fast.get_l().len(), 32);
    fast.update_l(p(99.0), 5);
    basic.update_l(p(99.0), 5);
    assert_eq!(fast.get_l().len(), 32);
    assert_eq!(prices(&fast.get_l())[0], 100.0);
    assert_eq!(basic.get_l().len(), 33);
    assert_eq!(prices(&basic.get_l())[0], 99.0);
    fast.update_l(p(100.0), 9);
    assert_eq!(fast.get_l()[0], Level { price: p(100.0), quantity: 9 });
}

#[test]
fn best_level_removal_shifts_the_rest() {
    let mut fast = ImprovedSide::new(true);
    for &(x, q) in &[(10.0, 1), (9.0, 2), (8.0, 3)] {
        fast.update_l(p(x), q);
    }
    fast.remove_l(p(10.0));
    assert_eq!(prices(&fast.get_l()), vec![9.0, 8.0]);
    fast.remove_l(p(8.0));
    assert_eq!(prices(&fast.get_l()), vec![9.0]);
    fast.remove_l(p(9.0));
    assert!(fast.get_l().is_empty());
}

#[test]
fn lob_update_routes_by_side_and_quantity() {
    let mut book = Lob::new(4, Basic::new(true), Basic::new(false));
    book.update(Side::B, p(10.0), 5);
    book.update(Side::A, p(11.0), 6);
    book.update(Side::A, p(10.5), 7);
    assert_eq!(prices(&book.bids.get_l()), vec![10.0]);
    assert_eq!(prices(&book.asks.get_l()), vec![10.5, 11.0]);
    book.update(Side::A, p(11.0), 0);
    assert_eq!(prices(&book.asks.get_l()), vec![10.5]);
    assert_eq!(book.last_update_seq, None);
}

#[test]
fn non_positive_prices_are_never_stored() {
    let mut book = Lob::new(4, ImprovedSide::new(true), ImprovedSide::new(false));
    book.update(Side::B, p(0.0), 5);
    book.update(Side::B, p(-1.0), 5);
    book.update(Side::B, p(f64::NAN), 5);
    assert!(book.bids.get_l().is_empty());
    assert!(price_is_positive(p(f64::INFINITY)));
    assert!(!price_is_positive(p(-0.0)));
    assert!(price_is_positive(p(f64::MIN_POSITIVE)));
}

#[test]
fn tags_and_sides_from_bytes() {
    assert_eq!(MessageType::from_u8(0b01), Some(MessageType::Snapshot));
    assert_eq!(MessageType::from_u8(0b10), Some(MessageType::Incremental));
    assert_eq!(MessageType::from_u8(0b11), Some(MessageType::EndOfSnapshot));
    assert_eq!(MessageType::from_u8(0), None);
    assert_eq!(MessageType::from_u8(4), None);
    assert_eq!(MessageType::Incremental.to_u8(), 2);
    assert_eq!(Side::from_u8(0), Some(Side::B));
    assert_eq!(Side::from_u8(1), Some(Side::A));
    assert_eq!(Side::from_u8(2), None);
}

#[test]
fn little_endian_read() {
    let bytes = [0xAAu8, 0x01, 0x02, 0x03, 0x04, 0x05, 0x06, 0x07, 0x08];
    assert_eq!(read_u64_le(&bytes, 1), 0x0807060504030201);
    assert_eq!(read_u64_le(&[0xFF; 8], 0), u64::MAX);
}

#[test]
fn decode_snapshot_fields() {
    let mut data = vec![0u8; 3];
    for v in [77u64, 12, 99] {
        data.extend_from_slice(&v.to_le_bytes());
    }
    for i in 0..5u64 {
        for v in [p(100.0 - i as f64), 10 + i, p(101.0 + i as f64), 20 + i] {
            data.extend_from_slice(&v.to_le_bytes());
        }
    }
    data.resize(3 + 208, 0);
    let rec = decode_snapshot(&data, 3).unwrap();
    assert_eq!((rec.timestamp_ms, rec.seq_no, rec.security_id), (77, 12, 99));
    assert_eq!(rec.bids.len(), 5);
    assert_eq!(rec.asks[4], Level { price: p(105.0), quantity: 24 });
    assert_eq!(decode_snapshot(&data, 4).err(), Some(LobError::Truncated { offset: 4 }));
}

#[test]
fn decode_incremental_fields() {
    let mut data = Vec::new();
    for v in [5u64, 6, 7, 2] {
        data.extend_from_slice(&v.to_le_bytes());
    }
    data.push(1);
    data.extend_from_slice(&p(3.5).to_le_bytes());
    data.extend_from_slice(&0u64.to_le_bytes());
    data.push(0);
    data.extend_from_slice(&p(2.5).to_le_bytes());
    data.extend_from_slice(&4u64.to_le_bytes());
    let rec = decode_incremental(&data, 0, true).unwrap();
    assert_eq!((rec.timestamp_ms, rec.seq_no, rec.security_id, rec.end), (5, 6, 7, 66));
    assert_eq!(rec.updates.len(), 2);
    assert_eq!(rec.updates[0].side, Side::A);
    assert_eq!(rec.updates[0].price, p(3.5));
    assert_eq!(rec.updates[0].qty, 0);
    assert_eq!(rec.updates[1].side, Side::B);
    assert_eq!(rec.updates[1].qty, 4);
    assert_eq!(decode_incremental(&data[..65], 0, true).err(), Some(LobError::Truncated { offset: 0 }));
    assert_eq!(decode_incremental(&data[..20], 0, false).err(), Some(LobError::Truncated { offset: 0 }));
}

#[test]
fn drivers_have_defaults() {
    assert!(BasicProcessor::default().process_bytes(&[], &[]).unwrap().is_empty());
    assert!(ImprovedProcessor::default().process_bytes(&[], &[]).unwrap().security_ids().is_empty());
}
