//! The index: which url was fetched when, and with what outcome.

pub mod db;
pub mod order;
pub mod timestamp;

use crate::digest::Digest;
use crate::image_type::ImageType;
use crate::image_type::rank_of;
use crate::index::timestamp::Timestamp;
use crate::text::{bytes_less, lex_less};
use core::cmp::Ordering;
use imghdr::Type;
use vstd::prelude::*;

verus! {

/// A fetch that stored a blob: when it happened, the blob's digest and its
/// content type.
#[derive(Copy, Clone, Debug, Eq, PartialEq)]
pub struct Entry {
    pub timestamp: Timestamp,
    pub digest: Digest,
    pub image_type: ImageType,
}

/// An `Entry` as plain values.
pub struct EntryView {
    pub timestamp: Timestamp,
    pub digest: Seq<u8>,
    pub kind: Option<Type>,
}

impl View for Entry {
    type V = EntryView;

    open spec fn view(&self) -> EntryView {
        EntryView { timestamp: self.timestamp, digest: self.digest@, kind: self.image_type@ }
    }
}

/// The outcome of one fetch attempt: the entry of a success, or the time of
/// a failure.
pub type Row = Result<Entry, Timestamp>;

/// A `Row` as plain values.
pub type RowView = Result<EntryView, Timestamp>;

pub open spec fn row_view(row: Row) -> RowView {
    match row {
        Ok(entry) => Ok(entry@),
        Err(timestamp) => Err(timestamp),
    }
}

pub open spec fn rows_view(rows: Seq<Row>) -> Seq<RowView> {
    rows.map_values(|row: Row| row_view(row))
}

/// The time of an attempt, in seconds.
pub open spec fn row_time(row: RowView) -> int {
    match row {
        Ok(entry) => entry.timestamp.0 as int,
        Err(timestamp) => timestamp.0 as int,
    }
}

/// The time of an attempt.
pub fn time_of(row: &Row) -> (timestamp: Timestamp)
    ensures
        timestamp.0 == row_time(row_view(*row)),
{
    match row {
        Ok(entry) => entry.timestamp,
        Err(timestamp) => *timestamp,
    }
}

/// How two entries compare: the more recent one first; of two of the same
/// second, the one with the lesser digest; of two with the same digest, the
/// one whose format comes first.
pub open spec fn entry_order(a: EntryView, b: EntryView) -> Ordering {
    if a.timestamp.0 > b.timestamp.0 {
        Ordering::Less
    } else if a.timestamp.0 < b.timestamp.0 {
        Ordering::Greater
    } else if lex_less(a.digest, b.digest) {
        Ordering::Less
    } else if lex_less(b.digest, a.digest) {
        Ordering::Greater
    } else if rank_of(a.kind) < rank_of(b.kind) {
        Ordering::Less
    } else if rank_of(a.kind) > rank_of(b.kind) {
        Ordering::Greater
    } else {
        Ordering::Equal
    }
}

impl Entry {
    /// How this entry compares with `other`.
    pub fn cmp(&self, other: &Entry) -> (order: Ordering)
        ensures
            order == entry_order(self@, other@),
    {
        if self.timestamp.0 > other.timestamp.0 {
            Ordering::Less
        } else if self.timestamp.0 < other.timestamp.0 {
            Ordering::Greater
        } else if bytes_less(self.digest.0.as_slice(), other.digest.0.as_slice()) {
            Ordering::Less
        } else if bytes_less(other.digest.0.as_slice(), self.digest.0.as_slice()) {
            Ordering::Greater
        } else if self.image_type.rank() < other.image_type.rank() {
            Ordering::Less
        } else if self.image_type.rank() > other.image_type.rank() {
            Ordering::Greater
        } else {
            Ordering::Equal
        }
    }
}

} // verus!
