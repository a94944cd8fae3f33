//! The wire format of the index and the rules for reading a scan of it.
//!
//! The index lives in an ordered store of byte keys and byte values. A key
//! is the url's UTF-8 bytes, one zero byte, and the attempt time as four
//! big-endian bytes of seconds since the epoch. A value is the 16 bytes of a
//! digest followed by one content-type code. A failed attempt is stored as
//! sixteen zero bytes with the code 0.

use crate::digest::Digest;
use crate::image_type::{code_of, kind_of, ImageType};
use crate::index::timestamp::{
    be_bytes, be_value, clamped, from_be_bytes, to_be_bytes, DecodeError, Timestamp,
};
use crate::index::{row_time, row_view, rows_view, time_of, Entry, EntryView, Row, RowView};
use crate::text::{bytes_equal, lemma_same_bytes_same_text, string_from_utf8};
use imghdr::Type;
use vstd::prelude::*;
use vstd::slice::{slice_subrange, slice_to_vec};
use vstd::utf8::{decode_utf8, encode_utf8, valid_utf8};

verus! {

/// Why a stored pair cannot be read.
#[derive(Debug)]
pub enum Error {
    /// The value ends too soon or holds an unassigned content-type code.
    Decode(DecodeError),
    /// The key is shorter than five bytes, lacks the zero byte between url
    /// and time, or its url is not UTF-8.
    InvalidKeyBytes(Vec<u8>),
    /// The value goes on after its seventeen bytes.
    ExtraValueBytes(Vec<u8>),
}

/// An `Error` as plain values.
pub enum ErrorView {
    Decode(DecodeError),
    InvalidKeyBytes(Seq<u8>),
    ExtraValueBytes(Seq<u8>),
}

impl View for Error {
    type V = ErrorView;

    open spec fn view(&self) -> ErrorView {
        match self {
            Error::Decode(error) => ErrorView::Decode(*error),
            Error::InvalidKeyBytes(bytes) => ErrorView::InvalidKeyBytes(bytes@),
            Error::ExtraValueBytes(bytes) => ErrorView::ExtraValueBytes(bytes@),
        }
    }
}

/// What a key says: the url and the time of the attempt.
#[derive(Clone, Debug, Eq, PartialEq)]
pub struct Key {
    pub url: String,
    pub timestamp: Timestamp,
}

/// What a value says: a digest and a content type.
#[derive(Clone, Copy, Debug, Eq, PartialEq)]
pub struct Value {
    pub digest: [u8; 16],
    pub image_type: ImageType,
}

/// The digest that marks a failed attempt.
pub open spec fn error_digest() -> Seq<u8> {
    Seq::new(16, |i: int| 0u8)
}

/// The key under which an attempt on `url` at `timestamp` is stored.
pub open spec fn key_bytes(url: Seq<char>, timestamp: Timestamp) -> Seq<u8> {
    encode_utf8(url) + seq![0u8] + be_bytes(clamped(timestamp.0 as int))
}

/// The value that stores `digest` with the content type `kind`.
pub open spec fn value_bytes(digest: Seq<u8>, kind: Option<Type>) -> Seq<u8> {
    digest + seq![code_of(kind)]
}

/// What the key `bytes` says. The last four bytes are the time, the byte
/// before them is the zero byte that ends the url, and what stands before
/// that is the url. Bytes of any other form are no key.
pub open spec fn parse_key(bytes: Seq<u8>) -> Result<(Seq<char>, Timestamp), ErrorView> {
    if bytes.len() < 5 || bytes[bytes.len() - 5] != 0 || !valid_utf8(
        bytes.take(bytes.len() - 5),
    ) {
        Err(ErrorView::InvalidKeyBytes(bytes))
    } else {
        Ok(
            (
                decode_utf8(bytes.take(bytes.len() - 5)),
                Timestamp(be_value(bytes.skip(bytes.len() - 4)) as i64),
            ),
        )
    }
}

/// What the value `bytes` says.
pub open spec fn parse_value(bytes: Seq<u8>) -> Result<(Seq<u8>, Option<Type>), ErrorView> {
    if bytes.len() < 16 {
        Err(
            ErrorView::Decode(
                DecodeError::UnexpectedEnd { additional: (16 - bytes.len()) as usize },
            ),
        )
    } else if bytes.len() < 17 {
        Err(ErrorView::Decode(DecodeError::UnexpectedEnd { additional: 1 }))
    } else if kind_of(bytes[16]) is None {
        Err(ErrorView::Decode(DecodeError::InvalidImageTypeCode))
    } else if bytes.len() > 17 {
        Err(ErrorView::ExtraValueBytes(bytes))
    } else {
        Ok((bytes.take(16), kind_of(bytes[16])->0))
    }
}

/// The outcome that a stored digest and content type stand for: a failure
/// where both are zero, else a success.
pub open spec fn outcome(timestamp: Timestamp, digest: Seq<u8>, kind: Option<Type>) -> RowView {
    if digest == error_digest() && kind is None {
        Err(timestamp)
    } else {
        Ok(EntryView { timestamp, digest, kind })
    }
}

/// What one stored pair says: the url and the outcome of the attempt.
pub open spec fn parse_pair(key: Seq<u8>, value: Seq<u8>) -> Result<(Seq<char>, RowView), ErrorView> {
    match parse_key(key) {
        Err(error) => Err(error),
        Ok((url, timestamp)) => match parse_value(value) {
            Err(error) => Err(error),
            Ok((digest, kind)) => Ok((url, outcome(timestamp, digest, kind))),
        },
    }
}

/// What one pair adds to a scan for `url`: its outcome, or nothing where the
/// pair belongs to another url, which ends the scan. The value of such a
/// pair is not read.
pub open spec fn scan_pair(url: Seq<char>, key: Seq<u8>, value: Seq<u8>) -> Result<
    Option<RowView>,
    ErrorView,
> {
    match parse_key(key) {
        Err(error) => Err(error),
        Ok((other, timestamp)) => if other != url {
            Ok(None)
        } else {
            match parse_value(value) {
                Err(error) => Err(error),
                Ok((digest, kind)) => Ok(Some(outcome(timestamp, digest, kind))),
            }
        },
    }
}

/// `first` placed before the outcomes of `rest`.
pub open spec fn prepend(first: Seq<RowView>, rest: Result<Seq<RowView>, ErrorView>) -> Result<
    Seq<RowView>,
    ErrorView,
> {
    match rest {
        Ok(rows) => Ok(first + rows),
        Err(error) => Err(error),
    }
}

/// The outcomes that a forward scan gives for `url`, in the order of the
/// scan: those of the leading pairs that belong to `url`. The scan ends at
/// the first pair of another url and fails at the first pair that cannot be
/// read.
pub open spec fn scan_rows(url: Seq<char>, scan: Seq<(Seq<u8>, Seq<u8>)>) -> Result<
    Seq<RowView>,
    ErrorView,
>
    decreases scan.len(),
{
    if scan.len() == 0 {
        Ok(Seq::empty())
    } else {
        match scan_pair(url, scan[0].0, scan[0].1) {
            Err(error) => Err(error),
            Ok(None) => Ok(Seq::empty()),
            Ok(Some(row)) => prepend(seq![row], scan_rows(url, scan.drop_first())),
        }
    }
}

/// `row` put into `rows` before the first outcome that is older than it.
pub open spec fn insert_recent(rows: Seq<RowView>, row: RowView) -> Seq<RowView>
    decreases rows.len(),
{
    if rows.len() == 0 {
        seq![row]
    } else if row_time(rows[0]) < row_time(row) {
        seq![row] + rows
    } else {
        seq![rows[0]] + insert_recent(rows.drop_first(), row)
    }
}

/// `rows` ordered from the most recent to the oldest; outcomes of the same
/// second keep their order.
pub open spec fn recent_first(rows: Seq<RowView>) -> Seq<RowView>
    decreases rows.len(),
{
    if rows.len() == 0 {
        Seq::empty()
    } else {
        insert_recent(recent_first(rows.drop_last()), rows.last())
    }
}

/// No outcome of `rows` is older than one that follows it.
pub open spec fn is_recent_first(rows: Seq<RowView>) -> bool {
    forall|i: int, j: int| 0 <= i < j < rows.len() ==> row_time(rows[i]) >= row_time(rows[j])
}

/// The pairs of a scan as plain values.
pub open spec fn pairs_view(scan: Seq<(Vec<u8>, Vec<u8>)>) -> Seq<(Seq<u8>, Seq<u8>)> {
    scan.map_values(|pair: (Vec<u8>, Vec<u8>)| (pair.0@, pair.1@))
}

pub open spec fn key_result_view(result: Result<Key, Error>) -> Result<
    (Seq<char>, Timestamp),
    ErrorView,
> {
    match result {
        Ok(key) => Ok((key.url@, key.timestamp)),
        Err(error) => Err(error@),
    }
}

pub open spec fn value_result_view(result: Result<Value, Error>) -> Result<
    (Seq<u8>, Option<Type>),
    ErrorView,
> {
    match result {
        Ok(value) => Ok((value.digest@, value.image_type@)),
        Err(error) => Err(error@),
    }
}

pub open spec fn pair_result_view(result: Result<(String, Row), Error>) -> Result<
    (Seq<char>, RowView),
    ErrorView,
> {
    match result {
        Ok((url, row)) => Ok((url@, row_view(row))),
        Err(error) => Err(error@),
    }
}

pub open spec fn rows_result_view(result: Result<Vec<Row>, Error>) -> Result<
    Seq<RowView>,
    ErrorView,
> {
    match result {
        Ok(rows) => Ok(rows_view(rows@)),
        Err(error) => Err(error@),
    }
}

/// Appends `bytes` to `out`.
fn append_bytes(out: &mut Vec<u8>, bytes: &[u8])
    ensures
        final(out)@ == old(out)@ + bytes@,
{
    let mut i: usize = 0;
    while i < bytes.len()
        invariant
            i <= bytes.len(),
            out@ == old(out)@ + bytes@.take(i as int),
        decreases bytes.len() - i,
    {
        out.push(bytes[i]);
        i += 1;
        assert(bytes@.take(i as int) =~= bytes@.take(i - 1).push(bytes@[i - 1]));
    }
    assert(bytes@.take(bytes.len() as int) =~= bytes@);
}

/// Whether `digest` is the digest that marks a failed attempt.
fn is_error_digest(digest: &[u8; 16]) -> (zero: bool)
    ensures
        zero == (digest@ == error_digest()),
{
    let mut i: usize = 0;
    while i < 16
        invariant
            i <= 16,
            forall|j: int| 0 <= j < i ==> digest@[j] == 0,
        decreases 16 - i,
    {
        if digest[i] != 0 {
            assert(error_digest()[i as int] == 0);
            return false;
        }
        i += 1;
    }
    assert(digest@ =~= error_digest());
    true
}

/// The first sixteen bytes of `bytes` as an array.
fn digest_at(bytes: &[u8]) -> (digest: [u8; 16])
    requires
        bytes@.len() >= 16,
    ensures
        digest@ == bytes@.take(16),
{
    let mut digest = [0u8; 16];
    let mut i: usize = 0;
    while i < 16
        invariant
            i <= 16,
            bytes@.len() >= 16,
            forall|j: int| 0 <= j < i ==> digest@[j] == bytes@[j],
        decreases 16 - i,
    {
        digest[i] = bytes[i];
        i += 1;
    }
    assert(digest@ =~= bytes@.take(16));
    digest
}

impl Key {
    /// The bytes under which this url and time are stored: the url, a zero
    /// byte, and the seconds as four big-endian bytes. A time that four
    /// bytes cannot count is stored as the largest count.
    pub fn to_bytes(&self) -> (bytes: Vec<u8>)
        ensures
            bytes@ == key_bytes(self.url@, self.timestamp),
    {
        let mut bytes = Vec::new();
        append_bytes(&mut bytes, self.url.as_str().as_bytes());
        bytes.push(0);
        let seconds = to_be_bytes(self.timestamp.clamped());
        bytes.push(seconds[0]);
        bytes.push(seconds[1]);
        bytes.push(seconds[2]);
        bytes.push(seconds[3]);
        assert(bytes@ =~= key_bytes(self.url@, self.timestamp));
        bytes
    }

    /// Reads a key. It is refused where it has fewer than five bytes, where
    /// the byte before the time is not zero, and where the url is not valid
    /// UTF-8.
    pub fn from_bytes(bytes: &[u8]) -> (result: Result<Key, Error>)
        ensures
            key_result_view(result) == parse_key(bytes@),
    {
        let n = bytes.len();
        if n < 5 || bytes[n - 5] != 0 {
            return Err(Error::InvalidKeyBytes(slice_to_vec(bytes)));
        }
        let seconds = from_be_bytes(bytes, n - 4);
        assert(bytes@.subrange(n - 4, n - 4 + 4) =~= bytes@.skip(n - 4));
        assert(bytes@.subrange(0, n - 5) =~= bytes@.take(n - 5));
        match string_from_utf8(slice_to_vec(slice_subrange(bytes, 0, n - 5))) {
            Some(url) => Ok(Key { url, timestamp: Timestamp(seconds as i64) }),
            None => Err(Error::InvalidKeyBytes(slice_to_vec(bytes))),
        }
    }
}

impl Value {
    /// The seventeen bytes that store this value.
    pub fn to_bytes(&self) -> (bytes: Vec<u8>)
        ensures
            bytes@ == value_bytes(self.digest@, self.image_type@),
    {
        let mut bytes = Vec::new();
        let mut i: usize = 0;
        while i < 16
            invariant
                i <= 16,
                bytes@ == self.digest@.take(i as int),
            decreases 16 - i,
        {
            bytes.push(self.digest[i]);
            i += 1;
            assert(self.digest@.take(i as int) =~= self.digest@.take(i - 1).push(
                self.digest@[i - 1],
            ));
        }
        assert(self.digest@.take(16) =~= self.digest@);
        bytes.push(self.image_type.code());
        bytes
    }

    /// Reads a value. It is refused where it ends before its seventeen
    /// bytes do, where the content-type code is not assigned, and where it
    /// goes on after them.
    pub fn from_bytes(bytes: &[u8]) -> (result: Result<Value, Error>)
        ensures
            value_result_view(result) == parse_value(bytes@),
    {
        let n = bytes.len();
        if n < 16 {
            return Err(Error::Decode(DecodeError::UnexpectedEnd { additional: 16 - n }));
        }
        if n < 17 {
            return Err(Error::Decode(DecodeError::UnexpectedEnd { additional: 1 }));
        }
        let digest = digest_at(bytes);
        match ImageType::from_code(bytes[16]) {
            None => Err(Error::Decode(DecodeError::InvalidImageTypeCode)),
            Some(image_type) => {
                if n > 17 {
                    Err(Error::ExtraValueBytes(slice_to_vec(bytes)))
                } else {
                    Ok(Value { digest, image_type })
                }
            },
        }
    }

    /// The outcome that this value stands for in an attempt at `timestamp`.
    pub fn outcome(&self, timestamp: Timestamp) -> (row: Row)
        ensures
            row_view(row) == outcome(timestamp, self.digest@, self.image_type@),
    {
        if is_error_digest(&self.digest) && self.image_type.value().is_none() {
            Err(timestamp)
        } else {
            Ok(Entry { timestamp, digest: Digest(self.digest), image_type: self.image_type })
        }
    }
}

/// A scan for the attempts on one url, pair by pair.
pub struct Lookup {
    url: String,
    rows: Vec<Row>,
}

impl Lookup {
    /// The url that is looked up.
    pub closed spec fn url(&self) -> Seq<char> {
        self.url@
    }

    /// The outcomes taken so far, in the order of the scan.
    pub closed spec fn rows(&self) -> Seq<RowView> {
        rows_view(self.rows@)
    }

    /// A scan for `url` that has taken no pair yet.
    pub fn new(url: &str) -> (lookup: Lookup)
        ensures
            lookup.url() == url@,
            lookup.rows() == Seq::<RowView>::empty(),
    {
        let lookup = Lookup { url: url.to_owned(), rows: Vec::new() };
        assert(lookup.rows() =~= Seq::<RowView>::empty());
        lookup
    }

    /// The key at which the forward scan starts: the bytes of the url.
    /// Every key of the url is greater, since it goes on after them.
    pub fn start(&self) -> (key: Vec<u8>)
        ensures
            key@ == encode_utf8(self.url()),
    {
        slice_to_vec(self.url.as_str().as_bytes())
    }

    /// Takes the next pair of the scan. `Ok(true)`: the pair belongs to the
    /// url and its outcome is recorded. `Ok(false)`: the pair belongs to
    /// another url, so the scan is over. An error: the pair cannot be read;
    /// nothing is recorded.
    pub fn push(&mut self, key: &[u8], value: &[u8]) -> (result: Result<bool, Error>)
        ensures
            final(self).url() == old(self).url(),
            match scan_pair(old(self).url(), key@, value@) {
                Err(error) => result matches Err(e) && e@ == error && final(self).rows() == old(
                    self,
                ).rows(),
                Ok(None) => result == Ok::<bool, Error>(false) && final(self).rows() == old(
                    self,
                ).rows(),
                Ok(Some(row)) => result == Ok::<bool, Error>(true) && final(self).rows() == old(
                    self,
                ).rows().push(row),
            },
    {
        let parsed = match Key::from_bytes(key) {
            Ok(parsed) => parsed,
            Err(error) => {
                return Err(error);
            },
        };
        let same = bytes_equal(parsed.url.as_str().as_bytes(), self.url.as_str().as_bytes());
        proof {
            if same {
                lemma_same_bytes_same_text(parsed.url@, self.url@);
            }
        }
        if !same {
            return Ok(false);
        }
        let stored = match Value::from_bytes(value) {
            Ok(stored) => stored,
            Err(error) => {
                return Err(error);
            },
        };
        let row = stored.outcome(parsed.timestamp);
        self.rows.push(row);
        assert(rows_view(self.rows@) =~= rows_view(old(self).rows@).push(row_view(row)));
        Ok(true)
    }

    /// Ends the scan: the outcomes taken, most recent first.
    pub fn finish(self) -> (rows: Vec<Row>)
        ensures
            rows_view(rows@) == recent_first(self.rows()),
    {
        sort_recent_first(self.rows)
    }
}

/// Where `insert_recent` puts an outcome of time `time`: the number of
/// leading outcomes that are no older.
pub open spec fn insert_position(rows: Seq<RowView>, time: int) -> int
    decreases rows.len(),
{
    if rows.len() == 0 || row_time(rows[0]) < time {
        0
    } else {
        1 + insert_position(rows.drop_first(), time)
    }
}

proof fn lemma_insert_position(rows: Seq<RowView>, row: RowView)
    ensures
        0 <= insert_position(rows, row_time(row)) <= rows.len(),
        insert_recent(rows, row) == rows.insert(insert_position(rows, row_time(row)), row),
        forall|i: int|
            0 <= i < insert_position(rows, row_time(row)) ==> row_time(#[trigger] rows[i])
                >= row_time(row),
        insert_position(rows, row_time(row)) < rows.len() ==> row_time(
            rows[insert_position(rows, row_time(row))],
        ) < row_time(row),
    decreases rows.len(),
{
    if rows.len() == 0 {
        assert(insert_recent(rows, row) =~= rows.insert(0, row));
    } else if row_time(rows[0]) < row_time(row) {
        assert(insert_recent(rows, row) =~= rows.insert(0, row));
    } else {
        let rest = rows.drop_first();
        lemma_insert_position(rest, row);
        let p = insert_position(rest, row_time(row));
        assert(insert_recent(rows, row) =~= rows.insert(p + 1, row));
        assert forall|i: int| 0 <= i < p + 1 implies row_time(#[trigger] rows[i]) >= row_time(
            row,
        ) by {
            if i > 0 {
                assert(rows[i] == rest[i - 1]);
            }
        }
        if p + 1 < rows.len() {
            assert(rows[p + 1] == rest[p]);
        }
    }
}

/// Orders outcomes from the most recent to the oldest, keeping the order of
/// those of the same second.
pub fn sort_recent_first(rows: Vec<Row>) -> (sorted: Vec<Row>)
    ensures
        rows_view(sorted@) == recent_first(rows_view(rows@)),
{
    let mut sorted: Vec<Row> = Vec::new();
    let mut i: usize = 0;
    assert(rows_view(rows@).take(0) =~= Seq::<RowView>::empty());
    assert(rows_view(sorted@) =~= Seq::<RowView>::empty());
    while i < rows.len()
        invariant
            i <= rows.len(),
            rows_view(sorted@) == recent_first(rows_view(rows@).take(i as int)),
        decreases rows.len() - i,
    {
        let row = rows[i];
        let time = time_of(&row).0;
        let mut at: usize = 0;
        let ghost before = rows_view(sorted@);
        assert(before.skip(0) =~= before);
        while at < sorted.len() && time_of(&sorted[at]).0 >= time
            invariant
                at <= sorted.len(),
                before == rows_view(sorted@),
                time == row_time(row_view(row)),
                insert_position(before, time as int) == at + insert_position(
                    before.skip(at as int),
                    time as int,
                ),
            decreases sorted.len() - at,
        {
            proof {
                assert(before.skip(at as int).drop_first() =~= before.skip(at + 1));
            }
            at += 1;
        }
        proof {
            lemma_insert_position(before, row_view(row));
            let prefix = rows_view(rows@).take(i + 1);
            assert(prefix.drop_last() =~= rows_view(rows@).take(i as int));
            assert(prefix.last() == row_view(row));
        }
        sorted.insert(at, row);
        assert(rows_view(sorted@) =~= before.insert(at as int, row_view(row)));
        i += 1;
    }
    assert(rows_view(rows@).take(rows.len() as int) =~= rows_view(rows@));
    sorted
}

/// The index as a store of pairs: what is written for an attempt, and what
/// a scan of it says.
pub struct Database;

impl Database {
    /// All attempts on `url` that the forward scan `scan` shows, most recent
    /// first. `scan` holds the pairs of the store from the key `url` on, in
    /// ascending order of their keys, as far as they were read; only the
    /// leading pairs of `url` count. A pair that cannot be read fails the
    /// lookup.
    pub fn lookup(url: &str, scan: &Vec<(Vec<u8>, Vec<u8>)>) -> (result: Result<Vec<Row>, Error>)
        ensures
            rows_result_view(result) == match scan_rows(url@, pairs_view(scan@)) {
                Ok(rows) => Ok(recent_first(rows)),
                Err(error) => Err(error),
            },
    {
        let mut lookup = Lookup::new(url);
        let ghost pairs = pairs_view(scan@);
        let mut i: usize = 0;
        assert(pairs.skip(0) =~= pairs);
        while i < scan.len()
            invariant
                i <= scan.len(),
                pairs == pairs_view(scan@),
                lookup.url() == url@,
                scan_rows(url@, pairs) == prepend(
                    lookup.rows(),
                    scan_rows(url@, pairs.skip(i as int)),
                ),
            decreases scan.len() - i,
        {
            proof {
                let rest = pairs.skip(i as int);
                assert(rest[0] == pairs[i as int]);
                assert(rest.drop_first() =~= pairs.skip(i + 1));
                assert(pairs[i as int] == (scan@[i as int].0@, scan@[i as int].1@));
            }
            let ghost taken = lookup.rows();
            match lookup.push(scan[i].0.as_slice(), scan[i].1.as_slice()) {
                Err(error) => {
                    return Err(error);
                },
                Ok(false) => {
                    assert(taken + Seq::<RowView>::empty() =~= taken);
                    return Ok(lookup.finish());
                },
                Ok(true) => {
                    proof {
                        let row = lookup.rows().last();
                        match scan_rows(url@, pairs.skip(i + 1)) {
                            Ok(more) => {
                                assert(taken + (seq![row] + more) =~= taken.push(row) + more);
                            },
                            Err(_) => {},
                        }
                    }
                },
            }
            i += 1;
        }
        assert(lookup.rows() + Seq::<RowView>::empty() =~= lookup.rows());
        Ok(lookup.finish())
    }

    /// The pair to store for a successful attempt on `url`.
    pub fn add(url: &str, entry: Entry) -> (pair: (Vec<u8>, Vec<u8>))
        ensures
            pair.0@ == key_bytes(url@, entry.timestamp),
            pair.1@ == value_bytes(entry.digest@, entry.image_type@),
    {
        let key = Key { url: url.to_owned(), timestamp: entry.timestamp };
        let value = Value { digest: entry.digest.0, image_type: entry.image_type };
        (key.to_bytes(), value.to_bytes())
    }

    /// The pair to store for a failed attempt on `url`.
    pub fn add_failed(url: &str, timestamp: Timestamp) -> (pair: (Vec<u8>, Vec<u8>))
        ensures
            pair.0@ == key_bytes(url@, timestamp),
            pair.1@ == value_bytes(error_digest(), None),
    {
        let key = Key { url: url.to_owned(), timestamp };
        let value = Value { digest: [0u8; 16], image_type: ImageType::empty() };
        assert(value.digest@ =~= error_digest());
        (key.to_bytes(), value.to_bytes())
    }

    /// What one stored pair says: its url and the outcome of the attempt.
    pub fn row(key: &[u8], value: &[u8]) -> (result: Result<(String, Row), Error>)
        ensures
            pair_result_view(result) == parse_pair(key@, value@),
    {
        let parsed = match Key::from_bytes(key) {
            Ok(parsed) => parsed,
            Err(error) => {
                return Err(error);
            },
        };
        let stored = match Value::from_bytes(value) {
            Ok(stored) => stored,
            Err(error) => {
                return Err(error);
            },
        };
        let row = stored.outcome(parsed.timestamp);
        Ok((parsed.url, row))
    }

    /// What each pair of a full scan says, in the order of the scan. A pair
    /// that cannot be read gives an error in its place and leaves the others
    /// as they are.
    pub fn iter(scan: &Vec<(Vec<u8>, Vec<u8>)>) -> (rows: Vec<Result<(String, Row), Error>>)
        ensures
            rows@.len() == scan@.len(),
            forall|i: int|
                0 <= i < scan@.len() ==> pair_result_view(#[trigger] rows@[i]) == parse_pair(
                    scan@[i].0@,
                    scan@[i].1@,
                ),
    {
        let mut rows: Vec<Result<(String, Row), Error>> = Vec::new();
        let mut i: usize = 0;
        while i < scan.len()
            invariant
                i <= scan.len(),
                rows@.len() == i,
                forall|j: int|
                    0 <= j < i ==> pair_result_view(#[trigger] rows@[j]) == parse_pair(
                        scan@[j].0@,
                        scan@[j].1@,
                    ),
            decreases scan.len() - i,
        {
            rows.push(Self::row(scan[i].0.as_slice(), scan[i].1.as_slice()));
            i += 1;
        }
        rows
    }
}

} // verus!
