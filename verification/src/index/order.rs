//! What the wire format guarantees: pairs are read back as written, and the
//! attempts on one url are the leading pairs of a scan that starts at the
//! url.

use crate::image_type::{code_of, lemma_code_round_trip};
use crate::index::db::{
    error_digest, insert_recent, is_recent_first, key_bytes, parse_key, parse_pair, parse_value,
    recent_first, scan_pair, scan_rows, value_bytes, ErrorView,
};
use crate::index::timestamp::{be_bytes, clamped, lemma_be_round_trip, Timestamp};
use crate::index::{row_time, EntryView, RowView};
use crate::text::{
    lemma_lex_between, lemma_lex_common_prefix, lemma_same_bytes_same_text, lex_less,
};
use imghdr::Type;
use vstd::prelude::*;
use vstd::utf8::{encode_utf8, encode_utf8_decode_utf8, encode_utf8_valid_utf8};

verus! {

/// No two outcomes of `rows` are of the same second.
pub open spec fn distinct_times(rows: Seq<RowView>) -> bool {
    forall|i: int, j: int|
        0 <= i < rows.len() && 0 <= j < rows.len() && i != j ==> row_time(rows[i]) != row_time(
            rows[j],
        )
}

/// Every outcome of `rows` is more recent than those that follow it.
pub open spec fn is_strictly_recent_first(rows: Seq<RowView>) -> bool {
    forall|i: int, j: int| 0 <= i < j < rows.len() ==> row_time(rows[i]) > row_time(rows[j])
}

/// A key is read back as the url and the time that were written, the time
/// as the seconds that four bytes can count.
pub proof fn lemma_key_round_trip(url: Seq<char>, timestamp: Timestamp)
    ensures
        parse_key(key_bytes(url, timestamp)) == Ok::<(Seq<char>, Timestamp), ErrorView>(
            (url, Timestamp(clamped(timestamp.0 as int) as i64)),
        ),
{
    let key = key_bytes(url, timestamp);
    let seconds = clamped(timestamp.0 as int);
    lemma_be_round_trip(seconds);
    encode_utf8_valid_utf8(url);
    encode_utf8_decode_utf8(url);
    assert(key[key.len() - 5] == 0);
    assert(key.take(key.len() - 5) =~= encode_utf8(url));
    assert(key.skip(key.len() - 4) =~= be_bytes(seconds));
}

/// A value is read back as the digest and the content type that were
/// written.
pub proof fn lemma_value_round_trip(digest: Seq<u8>, kind: Option<Type>)
    requires
        digest.len() == 16,
    ensures
        parse_value(value_bytes(digest, kind)) == Ok::<(Seq<u8>, Option<Type>), ErrorView>((digest, kind)),
{
    let value = value_bytes(digest, kind);
    lemma_code_round_trip(kind);
    assert(value[16] == code_of(kind));
    assert(value.take(16) =~= digest);
}

/// The pair written for a successful attempt is read back as that attempt,
/// but for the one digest and content type that mark a failure.
pub proof fn lemma_success_round_trip(url: Seq<char>, entry: EntryView)
    requires
        entry.digest.len() == 16,
        !(entry.digest == error_digest() && entry.kind is None),
    ensures
        parse_pair(key_bytes(url, entry.timestamp), value_bytes(entry.digest, entry.kind)) == Ok::<
            (Seq<char>, RowView), ErrorView>(
            (
                url,
                Ok(
                    EntryView {
                        timestamp: Timestamp(clamped(entry.timestamp.0 as int) as i64),
                        digest: entry.digest,
                        kind: entry.kind,
                    },
                ),
            ),
        ),
{
    lemma_key_round_trip(url, entry.timestamp);
    lemma_value_round_trip(entry.digest, entry.kind);
}

/// The pair written for a failed attempt is read back as a failure at that
/// time.
pub proof fn lemma_failure_round_trip(url: Seq<char>, timestamp: Timestamp)
    ensures
        parse_pair(key_bytes(url, timestamp), value_bytes(error_digest(), None)) == Ok::<
            (Seq<char>, RowView), ErrorView>((url, Err(Timestamp(clamped(timestamp.0 as int) as i64)))),
{
    lemma_key_round_trip(url, timestamp);
    lemma_value_round_trip(error_digest(), None);
}

/// A pair written for another url is never taken for an attempt on `url`,
/// also where one url starts with the other: it ends the scan.
pub proof fn lemma_other_url_ends_scan(
    url: Seq<char>,
    other: Seq<char>,
    timestamp: Timestamp,
    value: Seq<u8>,
)
    requires
        other != url,
    ensures
        scan_pair(url, key_bytes(other, timestamp), value) == Ok::<Option<RowView>, ErrorView>(None),
{
    lemma_key_round_trip(other, timestamp);
}

/// The outcomes of a scan are those of its leading pairs, each of which
/// belongs to the url; the pair after them, if there is one, belongs to
/// another url or cannot be read.
pub proof fn lemma_scan_takes_leading_pairs(url: Seq<char>, scan: Seq<(Seq<u8>, Seq<u8>)>)
    ensures
        match scan_rows(url, scan) {
            Ok(rows) => {
                &&& rows.len() <= scan.len()
                &&& forall|i: int|
                    0 <= i < rows.len() ==> #[trigger] scan_pair(url, scan[i].0, scan[i].1) == Ok::<
                        Option<RowView>, ErrorView>(Some(rows[i]))
                &&& rows.len() < scan.len() ==> scan_pair(
                    url,
                    scan[rows.len() as int].0,
                    scan[rows.len() as int].1,
                ) == Ok::<Option<RowView>, ErrorView>(None)
            },
            Err(error) => exists|i: int|
                0 <= i < scan.len() && #[trigger] scan_pair(url, scan[i].0, scan[i].1) == Err::<
                    Option<RowView>, ErrorView>(error),
        },
    decreases scan.len(),
{
    if scan.len() > 0 {
        let rest = scan.drop_first();
        lemma_scan_takes_leading_pairs(url, rest);
        match scan_pair(url, scan[0].0, scan[0].1) {
            Err(error) => {},
            Ok(None) => {},
            Ok(Some(row)) => {
                match scan_rows(url, rest) {
                    Ok(more) => {
                        let rows = seq![row] + more;
                        assert forall|i: int| 0 <= i < rows.len() implies #[trigger] scan_pair(
                            url,
                            scan[i].0,
                            scan[i].1,
                        ) == Ok::<Option<RowView>, ErrorView>(Some(rows[i])) by {
                            if i > 0 {
                                assert(scan[i] == rest[i - 1]);
                                assert(rows[i] == more[i - 1]);
                            }
                        }
                        if rows.len() < scan.len() {
                            assert(scan[rows.len() as int] == rest[more.len() as int]);
                        }
                    },
                    Err(error) => {
                        let i = choose|i: int|
                            0 <= i < rest.len() && #[trigger] scan_pair(url, rest[i].0, rest[i].1)
                                == Err::<Option<RowView>, ErrorView>(error);
                        assert(scan[i + 1] == rest[i]);
                        assert(scan_pair(url, scan[i + 1].0, scan[i + 1].1) == Err::<
                            Option<RowView>, ErrorView>(error));
                    },
                }
            },
        }
    }
}

proof fn lemma_insert_keeps_order(rows: Seq<RowView>, row: RowView)
    requires
        is_recent_first(rows),
    ensures
        is_recent_first(insert_recent(rows, row)),
        insert_recent(rows, row).len() == rows.len() + 1,
        insert_recent(rows, row).to_multiset() == rows.to_multiset().insert(row),
        distinct_times(rows) && (forall|i: int|
            0 <= i < rows.len() ==> row_time(#[trigger] rows[i]) != row_time(row))
            ==> distinct_times(insert_recent(rows, row)),
    decreases rows.len(),
{
    broadcast use vstd::seq_lib::group_to_multiset_ensures;

    if rows.len() == 0 {
        assert(insert_recent(rows, row) =~= rows.push(row));
    } else if row_time(rows[0]) < row_time(row) {
        let result = seq![row] + rows;
        assert(result =~= rows.insert(0, row));
        rows.to_multiset_ensures();
        assert(result.to_multiset() =~= rows.to_multiset().insert(row)) by {
            vstd::seq_lib::lemma_multiset_commutative(seq![row], rows);
            assert(seq![row] =~= Seq::<RowView>::empty().push(row));
        }
    } else {
        let rest = rows.drop_first();
        assert(is_recent_first(rest)) by {
            assert forall|i: int, j: int| 0 <= i < j < rest.len() implies row_time(rest[i])
                >= row_time(rest[j]) by {
                assert(rest[i] == rows[i + 1] && rest[j] == rows[j + 1]);
            }
        }
        lemma_insert_keeps_order(rest, row);
        let inner = insert_recent(rest, row);
        let result = seq![rows[0]] + inner;
        assert forall|i: int, j: int| 0 <= i < j < result.len() implies row_time(result[i])
            >= row_time(result[j]) by {
            if i == 0 {
                // every outcome of `inner` is `row` or one of `rest`
                assert(inner.to_multiset().count(inner[j - 1]) > 0);
                if inner[j - 1] != row {
                    assert(rest.to_multiset().count(inner[j - 1]) > 0);
                    assert(rest.contains(inner[j - 1]));
                    let k = choose|k: int| 0 <= k < rest.len() && rest[k] == inner[j - 1];
                    assert(rows[k + 1] == rest[k]);
                }
            } else {
                assert(result[i] == inner[i - 1] && result[j] == inner[j - 1]);
            }
        }
        assert(result.to_multiset() =~= rows.to_multiset().insert(row)) by {
            vstd::seq_lib::lemma_multiset_commutative(seq![rows[0]], inner);
            vstd::seq_lib::lemma_multiset_commutative(seq![rows[0]], rest);
            assert(seq![rows[0]] + rest =~= rows);
        }
        if distinct_times(rows) && (forall|i: int|
            0 <= i < rows.len() ==> row_time(#[trigger] rows[i]) != row_time(row)) {
            assert(distinct_times(rest)) by {
                assert forall|i: int, j: int|
                    0 <= i < rest.len() && 0 <= j < rest.len() && i != j implies row_time(rest[i])
                    != row_time(rest[j]) by {
                    assert(rest[i] == rows[i + 1] && rest[j] == rows[j + 1]);
                }
            }
            assert forall|i: int| 0 <= i < rest.len() implies row_time(#[trigger] rest[i])
                != row_time(row) by {
                assert(rest[i] == rows[i + 1]);
            }
            assert(distinct_times(inner));
            assert forall|i: int, j: int|
                0 <= i < result.len() && 0 <= j < result.len() && i != j implies row_time(
                result[i],
            ) != row_time(result[j]) by {
                let other = if i == 0 {
                    j
                } else {
                    i
                };
                if i == 0 || j == 0 {
                    assert(inner.to_multiset().count(inner[other - 1]) > 0);
                    if inner[other - 1] != row {
                        assert(rest.to_multiset().count(inner[other - 1]) > 0);
                        assert(rest.contains(inner[other - 1]));
                        let k = choose|k: int| 0 <= k < rest.len() && rest[k] == inner[other - 1];
                        assert(rows[k + 1] == rest[k]);
                    }
                } else {
                    assert(result[i] == inner[i - 1] && result[j] == inner[j - 1]);
                }
            }
        }
    }
}

/// Ordering outcomes most recent first keeps every outcome, once each, and
/// leaves none before a more recent one. Where no two are of the same
/// second, each is more recent than those that follow it.
pub proof fn lemma_recent_first(rows: Seq<RowView>)
    ensures
        recent_first(rows).len() == rows.len(),
        recent_first(rows).to_multiset() == rows.to_multiset(),
        is_recent_first(recent_first(rows)),
        distinct_times(rows) ==> is_strictly_recent_first(recent_first(rows)),
    decreases rows.len(),
{
    lemma_recent_first_holds(rows);
    let sorted = recent_first(rows);
    if distinct_times(rows) {
        assert forall|i: int, j: int| 0 <= i < j < sorted.len() implies row_time(sorted[i])
            > row_time(sorted[j]) by {
            assert(row_time(sorted[i]) >= row_time(sorted[j]));
            assert(row_time(sorted[i]) != row_time(sorted[j]));
        }
    }
}

proof fn lemma_recent_first_holds(rows: Seq<RowView>)
    ensures
        recent_first(rows).len() == rows.len(),
        recent_first(rows).to_multiset() == rows.to_multiset(),
        is_recent_first(recent_first(rows)),
        distinct_times(rows) ==> distinct_times(recent_first(rows)),
    decreases rows.len(),
{
    broadcast use vstd::seq_lib::group_to_multiset_ensures;

    if rows.len() > 0 {
        let front = rows.drop_last();
        let sorted = recent_first(front);
        lemma_recent_first_holds(front);
        lemma_insert_keeps_order(sorted, rows.last());
        assert(rows =~= front.push(rows.last()));
        if distinct_times(rows) {
            assert(distinct_times(front)) by {
                assert forall|i: int, j: int|
                    0 <= i < front.len() && 0 <= j < front.len() && i != j implies row_time(
                    front[i],
                ) != row_time(front[j]) by {
                    assert(front[i] == rows[i] && front[j] == rows[j]);
                }
            }
            assert forall|i: int| 0 <= i < sorted.len() implies row_time(#[trigger] sorted[i])
                != row_time(rows.last()) by {
                assert(sorted.to_multiset().count(sorted[i]) > 0);
                assert(front.to_multiset().count(sorted[i]) > 0);
                assert(front.contains(sorted[i]));
                let k = choose|k: int| 0 <= k < front.len() && front[k] == sorted[i];
                assert(rows[k] == front[k]);
            }
        }
    }
}

/// The attempts on a url that a lookup gives are the attempts that the scan
/// showed, most recent first; and every one is more recent than those that
/// follow it where the scan showed no two of the same second, as a store
/// that holds one pair per key does.
pub proof fn lemma_lookup_order(url: Seq<char>, scan: Seq<(Seq<u8>, Seq<u8>)>)
    requires
        scan_rows(url, scan) is Ok,
    ensures
        ({
            let rows = scan_rows(url, scan)->Ok_0;
            &&& recent_first(rows).to_multiset() == rows.to_multiset()
            &&& is_recent_first(recent_first(rows))
            &&& distinct_times(rows) ==> is_strictly_recent_first(recent_first(rows))
        }),
{
    lemma_recent_first(scan_rows(url, scan)->Ok_0);
}

/// Two keys written for one url differ only where their seconds differ, so
/// a store that holds one pair per key holds one attempt per second.
pub proof fn lemma_one_key_per_second(url: Seq<char>, first: Timestamp, second: Timestamp)
    ensures
        key_bytes(url, first) == key_bytes(url, second) <==> clamped(first.0 as int) == clamped(
            second.0 as int,
        ),
{
    lemma_key_round_trip(url, first);
    lemma_key_round_trip(url, second);
}

/// No byte of the url is zero.
pub open spec fn has_no_nul(url: Seq<char>) -> bool {
    forall|i: int| 0 <= i < encode_utf8(url).len() ==> encode_utf8(url)[i] != 0
}

/// Four-byte forms are ordered as the numbers they spell.
pub proof fn lemma_be_bytes_ascend(first: int, second: int)
    requires
        0 <= first < second <= u32::MAX,
    ensures
        lex_less(be_bytes(first), be_bytes(second)),
{
    let a = be_bytes(first);
    let b = be_bytes(second);
    assert(first == a[0] * 0x100_0000 + a[1] * 0x1_0000 + a[2] * 0x100 + a[3]) by {
        lemma_be_round_trip(first);
    }
    assert(second == b[0] * 0x100_0000 + b[1] * 0x1_0000 + b[2] * 0x100 + b[3]) by {
        lemma_be_round_trip(second);
    }
    assert(a.drop_first().drop_first().drop_first().drop_first().len() == 0);
    assert(a.drop_first()[0] == a[1] && a.drop_first().drop_first()[0] == a[2]
        && a.drop_first().drop_first().drop_first()[0] == a[3]);
    assert(b.drop_first()[0] == b[1] && b.drop_first().drop_first()[0] == b[2]
        && b.drop_first().drop_first().drop_first()[0] == b[3]);
    reveal_with_fuel(lex_less, 5);
}

/// The key at which a scan for a url starts comes before every key of the
/// url.
pub proof fn lemma_scan_starts_before_keys(url: Seq<char>, timestamp: Timestamp)
    ensures
        lex_less(encode_utf8(url), key_bytes(url, timestamp)),
{
    let tail = seq![0u8] + be_bytes(clamped(timestamp.0 as int));
    lemma_lex_common_prefix(encode_utf8(url), Seq::<u8>::empty(), tail);
    assert(encode_utf8(url) + Seq::<u8>::empty() =~= encode_utf8(url));
    assert(encode_utf8(url) + tail =~= key_bytes(url, timestamp));
}

/// The keys of one url are ordered by their seconds, so that a forward scan
/// shows the attempts on the url from the oldest to the most recent.
pub proof fn lemma_keys_ascend_with_time(url: Seq<char>, first: Timestamp, second: Timestamp)
    requires
        clamped(first.0 as int) < clamped(second.0 as int),
    ensures
        lex_less(key_bytes(url, first), key_bytes(url, second)),
{
    let start = encode_utf8(url) + seq![0u8];
    let a = be_bytes(clamped(first.0 as int));
    let b = be_bytes(clamped(second.0 as int));
    lemma_be_bytes_ascend(clamped(first.0 as int), clamped(second.0 as int));
    lemma_lex_common_prefix(start, a, b);
    assert(start + a =~= key_bytes(url, first));
    assert(start + b =~= key_bytes(url, second));
}

/// No key of another url lies between two keys of a url, whether or not one
/// url starts with the other: the zero byte that ends the url in a key
/// comes before every byte that a longer url goes on with. So the attempts
/// on a url are next to each other in the store.
pub proof fn lemma_no_key_between(
    url: Seq<char>,
    other: Seq<char>,
    first: Timestamp,
    second: Timestamp,
    between: Timestamp,
)
    requires
        has_no_nul(url),
        has_no_nul(other),
        lex_less(key_bytes(url, first), key_bytes(other, between)),
        lex_less(key_bytes(other, between), key_bytes(url, second)),
    ensures
        other == url,
{
    let name = encode_utf8(url);
    let start = name + seq![0u8];
    let a = be_bytes(clamped(first.0 as int));
    let b = be_bytes(clamped(second.0 as int));
    let x = key_bytes(other, between);
    let o = encode_utf8(other);
    assert(start + a =~= key_bytes(url, first));
    assert(start + b =~= key_bytes(url, second));
    lemma_lex_between(start, a, b, x);
    assert(x.take(start.len() as int)[name.len() as int] == 0);
    assert(x[o.len() as int] == 0);
    if o.len() < name.len() {
        assert(x.take(start.len() as int)[o.len() as int] == name[o.len() as int]);
    } else if o.len() > name.len() {
        assert(x[name.len() as int] == o[name.len() as int]);
    } else {
        assert forall|i: int| 0 <= i < name.len() implies o[i] == name[i] by {
            assert(x.take(start.len() as int)[i] == name[i]);
            assert(x[i] == o[i]);
        }
        assert(o =~= name);
        lemma_same_bytes_same_text(other, url);
    }
}

/// Bytes are read as a key only where they are what writing a key gives:
/// the url, the zero byte and four bytes of time. Whatever else a store
/// holds under a key is refused.
pub proof fn lemma_only_written_keys_are_read(bytes: Seq<u8>)
    ensures
        match parse_key(bytes) {
            Ok((url, timestamp)) => 0 <= timestamp.0 <= u32::MAX && bytes == key_bytes(
                url,
                timestamp,
            ),
            Err(error) => error == ErrorView::InvalidKeyBytes(bytes) && forall|
                url: Seq<char>,
                timestamp: Timestamp,
            | bytes != #[trigger] key_bytes(url, timestamp),
        },
{
    match parse_key(bytes) {
        Ok((url, timestamp)) => {
            let name = bytes.take(bytes.len() - 5);
            let time = bytes.skip(bytes.len() - 4);
            vstd::utf8::decode_utf8_encode_utf8(name);
            crate::index::timestamp::lemma_be_bytes_of_value(time);
            assert(bytes =~= name + seq![0u8] + time);
        },
        Err(error) => {
            assert forall|url: Seq<char>, timestamp: Timestamp| bytes != #[trigger] key_bytes(
                url,
                timestamp,
            ) by {
                lemma_key_round_trip(url, timestamp);
            }
        },
    }
}

/// The pair that is written for an attempt on `url`: that of `add` for a
/// success, that of `add_failed` for a failure.
pub open spec fn written(url: Seq<char>, row: RowView) -> (Seq<u8>, Seq<u8>) {
    match row {
        Ok(entry) => (key_bytes(url, entry.timestamp), value_bytes(entry.digest, entry.kind)),
        Err(timestamp) => (key_bytes(url, timestamp), value_bytes(error_digest(), None)),
    }
}

/// An attempt as it is read back: at the seconds that four bytes can count.
pub open spec fn stored(row: RowView) -> RowView {
    match row {
        Ok(entry) => Ok(
            EntryView {
                timestamp: Timestamp(clamped(entry.timestamp.0 as int) as i64),
                digest: entry.digest,
                kind: entry.kind,
            },
        ),
        Err(timestamp) => Err(Timestamp(clamped(timestamp.0 as int) as i64)),
    }
}

/// An attempt that can be written: a failure, or a success with a digest of
/// sixteen bytes that is not the mark of a failure.
pub open spec fn can_be_written(row: RowView) -> bool {
    row matches Ok(entry) ==> entry.digest.len() == 16 && !(entry.digest == error_digest()
        && entry.kind is None)
}

/// A scan of the pairs written for any number of attempts on a url, in
/// whatever order, followed by pairs written for another url, gives each
/// attempt on the url back, successes as successes and failures as
/// failures, and none of the other url.
pub proof fn lemma_scan_reads_what_was_written(
    url: Seq<char>,
    rows: Seq<RowView>,
    other: Seq<char>,
    others: Seq<RowView>,
)
    requires
        other != url,
        forall|i: int| 0 <= i < rows.len() ==> can_be_written(#[trigger] rows[i]),
    ensures
        scan_rows(
            url,
            rows.map_values(|row: RowView| written(url, row)) + others.map_values(
                |row: RowView| written(other, row),
            ),
        ) == Ok::<Seq<RowView>, ErrorView>(rows.map_values(|row: RowView| stored(row))),
    decreases rows.len(),
{
    let first = rows.map_values(|row: RowView| written(url, row));
    let second = others.map_values(|row: RowView| written(other, row));
    let scan = first + second;
    let read = rows.map_values(|row: RowView| stored(row));
    if rows.len() == 0 {
        assert(read =~= Seq::<RowView>::empty());
        if others.len() > 0 {
            assert(scan[0] == written(other, others[0]));
            match others[0] {
                Ok(entry) => lemma_other_url_ends_scan(url, other, entry.timestamp, scan[0].1),
                Err(timestamp) => lemma_other_url_ends_scan(url, other, timestamp, scan[0].1),
            }
        }
    } else {
        let rest = rows.drop_first();
        assert(scan[0] == written(url, rows[0]));
        assert(can_be_written(rows[0]));
        match rows[0] {
            Ok(entry) => lemma_success_round_trip(url, entry),
            Err(timestamp) => lemma_failure_round_trip(url, timestamp),
        }
        assert forall|i: int| 0 <= i < rest.len() implies can_be_written(#[trigger] rest[i]) by {
            assert(rest[i] == rows[i + 1]);
        }
        lemma_scan_reads_what_was_written(url, rest, other, others);
        assert(scan.drop_first() =~= rest.map_values(|row: RowView| written(url, row)) + second);
        assert(read =~= seq![stored(rows[0])] + rest.map_values(|row: RowView| stored(row)));
    }
}

} // verus!
