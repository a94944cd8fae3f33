//! Attempt times, at the resolution of the index: whole seconds since the
//! epoch, stored as four big-endian bytes.

use vstd::prelude::*;

verus! {

/// The time of a fetch attempt, in seconds since the epoch.
#[derive(Clone, Copy, Debug, Eq, Hash, Ord, PartialEq, PartialOrd, Structural)]
pub struct Timestamp(pub i64);

/// Why a time cannot be written in the four-byte form.
#[derive(Clone, Copy, Debug, Eq, PartialEq, Structural)]
pub enum EncodeError {
    /// The time lies before the epoch or after the last second that four
    /// bytes can count.
    InvalidEpochSecond,
}

/// Why bytes cannot be read.
#[derive(Clone, Copy, Debug, Eq, PartialEq, Structural)]
pub enum DecodeError {
    /// The bytes end before the value does; `additional` more are needed for
    /// the field at which they end.
    UnexpectedEnd { additional: usize },
    /// The stored content-type code is not assigned.
    InvalidImageTypeCode,
}

/// The four big-endian bytes of a number below 2^32.
pub open spec fn be_bytes(value: int) -> Seq<u8> {
    seq![
        (value / 0x100_0000 % 0x100) as u8,
        (value / 0x1_0000 % 0x100) as u8,
        (value / 0x100 % 0x100) as u8,
        (value % 0x100) as u8,
    ]
}

/// The number that four big-endian bytes spell.
pub open spec fn be_value(bytes: Seq<u8>) -> int {
    bytes[0] * 0x100_0000 + bytes[1] * 0x1_0000 + bytes[2] * 0x100 + bytes[3]
}

/// The seconds that a key stores for a time: the time itself where four
/// bytes can count it, else the largest count.
pub open spec fn clamped(seconds: int) -> int {
    if 0 <= seconds <= u32::MAX {
        seconds
    } else {
        u32::MAX as int
    }
}

/// Four bytes read back give the number that was written.
pub proof fn lemma_be_round_trip(value: int)
    requires
        0 <= value <= u32::MAX,
    ensures
        be_bytes(value).len() == 4,
        be_value(be_bytes(value)) == value,
{
}

/// A number written back gives the bytes that were read.
pub proof fn lemma_be_bytes_of_value(bytes: Seq<u8>)
    requires
        bytes.len() == 4,
    ensures
        0 <= be_value(bytes) <= u32::MAX,
        be_bytes(be_value(bytes)) == bytes,
{
    let a = bytes[0] as int;
    let b = bytes[1] as int;
    let c = bytes[2] as int;
    let d = bytes[3] as int;
    let value = be_value(bytes);
    assert(value / 0x100_0000 % 0x100 == a && value / 0x1_0000 % 0x100 == b && value / 0x100
        % 0x100 == c && value % 0x100 == d) by (nonlinear_arith)
        requires
            value == a * 0x100_0000 + b * 0x1_0000 + c * 0x100 + d,
            0 <= a < 0x100,
            0 <= b < 0x100,
            0 <= c < 0x100,
            0 <= d < 0x100,
    ;
    assert(be_bytes(value) =~= bytes);
}

/// The four big-endian bytes of `value`.
pub fn to_be_bytes(value: u32) -> (bytes: [u8; 4])
    ensures
        bytes@ == be_bytes(value as int),
{
    let bytes = [
        (value / 0x100_0000 % 0x100) as u8,
        (value / 0x1_0000 % 0x100) as u8,
        (value / 0x100 % 0x100) as u8,
        (value % 0x100) as u8,
    ];
    assert(bytes@ =~= be_bytes(value as int));
    bytes
}

/// The number that the four bytes of `bytes` from `at` on spell.
pub fn from_be_bytes(bytes: &[u8], at: usize) -> (value: u32)
    requires
        at + 4 <= bytes@.len(),
    ensures
        value == be_value(bytes@.subrange(at as int, at + 4)),
{
    let b0 = bytes[at] as u32;
    let b1 = bytes[at + 1] as u32;
    let b2 = bytes[at + 2] as u32;
    let b3 = bytes[at + 3] as u32;
    b0 * 0x100_0000 + b1 * 0x1_0000 + b2 * 0x100 + b3
}

impl Timestamp {
    /// The seconds that a key stores for this time.
    pub fn clamped(&self) -> (seconds: u32)
        ensures
            seconds == clamped(self.0 as int),
    {
        if 0 <= self.0 && self.0 <= 0xffff_ffff {
            self.0 as u32
        } else {
            u32::MAX
        }
    }

    /// Writes the time as four big-endian bytes, where four bytes can count
    /// it.
    pub fn encode(&self) -> (result: Result<[u8; 4], EncodeError>)
        ensures
            match result {
                Ok(bytes) => 0 <= self.0 <= u32::MAX && bytes@ == be_bytes(self.0 as int),
                Err(error) => !(0 <= self.0 <= u32::MAX),
            },
    {
        if 0 <= self.0 && self.0 <= 0xffff_ffff {
            Ok(to_be_bytes(self.0 as u32))
        } else {
            Err(EncodeError::InvalidEpochSecond)
        }
    }

    /// Reads a time from the first four bytes of `bytes`.
    pub fn decode(bytes: &[u8]) -> (result: Result<Timestamp, DecodeError>)
        ensures
            match result {
                Ok(timestamp) => bytes@.len() >= 4 && timestamp.0 == be_value(bytes@.take(4)),
                Err(error) => bytes@.len() < 4 && error == (DecodeError::UnexpectedEnd {
                    additional: (4 - bytes@.len()) as usize,
                }),
            },
    {
        if bytes.len() < 4 {
            Err(DecodeError::UnexpectedEnd { additional: 4 - bytes.len() })
        } else {
            Ok(Timestamp(from_be_bytes(bytes, 0) as i64))
        }
    }
}

} // verus!
