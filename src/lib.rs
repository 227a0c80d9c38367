//! Limit order books rebuilt from a snapshot feed and an incremental feed.
//!
//! Prices travel in the feed as IEEE-754 binary64 values. The library carries
//! each price as its 64-bit pattern ([`Price`]): for the positive prices that a
//! book holds, two patterns are equal exactly when the prices are, and compare
//! as the prices do. Converting to and from `f64` is left to the caller
//! (`f64::to_bits` / `f64::from_bits`).
use vstd::prelude::*;

pub mod model;
pub mod book;
pub mod basic;
pub mod improved;
pub mod codec;
pub mod replay;
pub mod fnv_books;
pub mod laws;

pub use book::{BookSide, Lob};

verus! {

pub type SecurityId = u64;

pub type SeqNo = u64;

pub type Qty = u64;

/// A price, as the bit pattern of its binary64 value.
pub type Price = u64;

/// Bytes of one snapshot record. Its fields fill the first 184; the rest is
/// not read.
pub const SNAPSHOT_SIZE: usize = 208;

/// Bytes of the fixed header of an incremental record.
pub const INCREMENTAL_HEADER_SIZE: usize = 32;

/// Bytes of one update inside an incremental record.
pub const INCREMENTAL_SIZE: usize = 17;

/// The tag of a framed stream message.
#[derive(Debug, Clone, Copy, PartialEq, Eq, Structural)]
pub enum MessageType {
    Snapshot,
    Incremental,
    EndOfSnapshot,
}

pub open spec fn message_type_of(val: u8) -> Option<MessageType> {
    if val == 1 {
        Some(MessageType::Snapshot)
    } else if val == 2 {
        Some(MessageType::Incremental)
    } else if val == 3 {
        Some(MessageType::EndOfSnapshot)
    } else {
        None
    }
}

impl MessageType {
    /// Reads a wire tag: `0b01` snapshot, `0b10` incremental, `0b11` end of snapshot.
    pub fn from_u8(val: u8) -> (r: Option<Self>)
        ensures
            r == message_type_of(val),
    {
        match val {
            1 => Some(MessageType::Snapshot),
            2 => Some(MessageType::Incremental),
            3 => Some(MessageType::EndOfSnapshot),
            _ => None,
        }
    }

    /// The wire tag of this message type.
    pub fn to_u8(self) -> (r: u8)
        ensures
            message_type_of(r) == Some(self),
    {
        match self {
            MessageType::Snapshot => 1,
            MessageType::Incremental => 2,
            MessageType::EndOfSnapshot => 3,
        }
    }
}

/// One frame of the live stream: a record with its tag, or the control frame
/// that ends the snapshot phase.
pub enum StreamMessage {
    Data(MessageType, Vec<u8>),
    EndOfSnapshot,
}

/// The side of a book: `B` for bids, `A` for asks.
#[derive(Debug, Clone, Copy, PartialEq, Eq, Structural)]
pub enum Side {
    B,
    A,
}

pub open spec fn side_of(val: u8) -> Option<Side> {
    if val == 0 {
        Some(Side::B)
    } else if val == 1 {
        Some(Side::A)
    } else {
        None
    }
}

impl Side {
    /// Reads a wire side byte: 0 bid, 1 ask.
    pub fn from_u8(val: u8) -> (r: Option<Self>)
        ensures
            r == side_of(val),
    {
        match val {
            0 => Some(Side::B),
            1 => Some(Side::A),
            _ => None,
        }
    }
}

/// One price level of a side: a positive price and the quantity resting there.
#[derive(Debug, Clone, Copy, PartialEq, Eq, Structural)]
pub struct Level {
    pub price: Price,
    pub quantity: Qty,
}

/// One change carried by an incremental record; a quantity of zero deletes
/// the level.
#[derive(Debug, Clone, Copy, PartialEq, Eq, Structural)]
pub struct Update {
    pub side: Side,
    pub price: Price,
    pub qty: Qty,
}

/// Why a buffer could not be replayed.
#[derive(Debug, Clone, Copy, PartialEq, Eq, Structural)]
pub enum LobError {
    /// The record that starts at `offset` needs more bytes than the buffer holds.
    Truncated { offset: usize },
    /// An update carries a side byte other than 0 or 1.
    InvalidSide { side: u8 },
}

} // verus!
