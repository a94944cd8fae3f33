//! What the command line tools write and read: the record of each download,
//! the lines of an index dump, and the import of download records into the
//! index.

use crate::digest::{hex_lower, Digest};
use crate::image_type::{name_of, ImageType};
use crate::index::timestamp::Timestamp;
use crate::index::{row_view, Entry, EntryView, Row, RowView};
use crate::store::{Action, ActionView};
use crate::text::{decimal, decimal_text, names_view, signed_decimal, signed_decimal_text};
use imghdr::Type;
use vstd::prelude::*;
use vstd::string::StringExecFns;

verus! {

/// Whether a download added its blob or found it.
#[derive(Clone, Copy, Debug, Eq, PartialEq, Structural)]
pub enum DownloadStatus {
    /// Written as `A`.
    Added,
    /// Written as `F`.
    Found,
}

/// One record of a download log.
#[derive(Clone, Debug, Eq, PartialEq)]
pub struct DownloadLogEntry {
    pub status: DownloadStatus,
    pub timestamp: Timestamp,
    pub digest: [u8; 16],
    pub image_type: ImageType,
    pub url: String,
}

/// A `DownloadLogEntry` as plain values.
pub struct DownloadLogEntryView {
    pub status: DownloadStatus,
    pub timestamp: Timestamp,
    pub digest: Seq<u8>,
    pub kind: Option<Type>,
    pub url: Seq<char>,
}

impl View for DownloadLogEntry {
    type V = DownloadLogEntryView;

    open spec fn view(&self) -> DownloadLogEntryView {
        DownloadLogEntryView {
            status: self.status,
            timestamp: self.timestamp,
            digest: self.digest@,
            kind: self.image_type@,
            url: self.url@,
        }
    }
}

/// The import of a download log into the index.
///
/// A record of an added blob tells the blob's content type and is indexed at
/// once. A record of a found blob tells none: it is indexed with the type
/// that a record of the same digest told, at once where that record came
/// before it, else when the log is through.
#[derive(Debug)]
pub struct Import {
    types: Vec<(Digest, ImageType)>,
    leftovers: Vec<DownloadLogEntry>,
}

/// The content type that the records taken so far tell for `digest`: that of
/// the last one that told one.
pub open spec fn type_told(types: Seq<(Seq<u8>, Option<Type>)>, digest: Seq<u8>) -> Option<
    Option<Type>,
>
    decreases types.len(),
{
    if types.len() == 0 {
        None
    } else if types.last().0 == digest {
        Some(types.last().1)
    } else {
        type_told(types.drop_last(), digest)
    }
}

/// The row that a record is indexed as, with the content type `kind`.
pub open spec fn row_of(entry: DownloadLogEntryView, kind: Option<Type>) -> (Seq<char>, EntryView) {
    (entry.url, EntryView { timestamp: entry.timestamp, digest: entry.digest, kind })
}

/// An `Import` as plain values: the types told so far and the records of
/// found blobs that still wait for theirs.
pub struct ImportView {
    pub types: Seq<(Seq<u8>, Option<Type>)>,
    pub leftovers: Seq<DownloadLogEntryView>,
}

/// What taking a record does: the import afterwards, and the row to index at
/// once, if there is one. A record of an added blob without a content type
/// is passed over.
pub open spec fn recorded(import: ImportView, entry: DownloadLogEntryView) -> (
    ImportView,
    Option<(Seq<char>, EntryView)>,
) {
    match entry.status {
        DownloadStatus::Added => if entry.kind is Some {
            (
                ImportView {
                    types: import.types.push((entry.digest, entry.kind)),
                    leftovers: import.leftovers,
                },
                Some(row_of(entry, entry.kind)),
            )
        } else {
            (import, None)
        },
        DownloadStatus::Found => match type_told(import.types, entry.digest) {
            Some(kind) => (import, Some(row_of(entry, kind))),
            None => (
                ImportView { types: import.types, leftovers: import.leftovers.push(entry) },
                None,
            ),
        },
    }
}

/// The rows to index when the log is through: those of the waiting records
/// whose type was told in the end, in the order of the log.
pub open spec fn late_rows(
    types: Seq<(Seq<u8>, Option<Type>)>,
    leftovers: Seq<DownloadLogEntryView>,
) -> Seq<(Seq<char>, EntryView)>
    decreases leftovers.len(),
{
    if leftovers.len() == 0 {
        Seq::empty()
    } else {
        let front = late_rows(types, leftovers.drop_last());
        match type_told(types, leftovers.last().digest) {
            Some(kind) => front.push(row_of(leftovers.last(), kind)),
            None => front,
        }
    }
}

/// The waiting records whose type was never told, in the order of the log.
pub open spec fn never_told(
    types: Seq<(Seq<u8>, Option<Type>)>,
    leftovers: Seq<DownloadLogEntryView>,
) -> Seq<DownloadLogEntryView>
    decreases leftovers.len(),
{
    if leftovers.len() == 0 {
        Seq::empty()
    } else {
        let front = never_told(types, leftovers.drop_last());
        match type_told(types, leftovers.last().digest) {
            Some(_) => front,
            None => front.push(leftovers.last()),
        }
    }
}

pub open spec fn types_view(types: Seq<(Digest, ImageType)>) -> Seq<(Seq<u8>, Option<Type>)> {
    types.map_values(|pair: (Digest, ImageType)| (pair.0@, pair.1@))
}

pub open spec fn entries_view(entries: Seq<DownloadLogEntry>) -> Seq<DownloadLogEntryView> {
    entries.map_values(|entry: DownloadLogEntry| entry@)
}

pub open spec fn indexed_view(row: Option<(String, Entry)>) -> Option<(Seq<char>, EntryView)> {
    match row {
        Some((url, entry)) => Some((url@, entry@)),
        None => None,
    }
}

pub open spec fn indexed_rows_view(rows: Seq<(String, Entry)>) -> Seq<(Seq<char>, EntryView)> {
    rows.map_values(|row: (String, Entry)| (row.0@, row.1@))
}

/// The fields of the record that is written for a download of `line`: `A`
/// or `F`, the name of the digest, the name of the content type of an added
/// blob, and the url; for a fetch that was answered with another status than
/// 200, `E` and the status.
pub open spec fn record_of(result: Result<ActionView, u16>, line: Seq<char>) -> Seq<Seq<char>> {
    match result {
        Ok(ActionView::Added { entry, kind }) => seq![
            "A"@,
            hex_lower(entry.digest),
            name_of(kind),
            line,
        ],
        Ok(ActionView::Found { entry }) => seq!["F"@, hex_lower(entry.digest), ""@, line],
        Err(status) => seq!["E"@, decimal_text(status as nat), ""@, ""@],
    }
}

/// The line that an index dump writes for an attempt on `url`: `S`, the
/// url, the seconds, the name of the content type and the name of the
/// digest for a success; `E`, the url and the seconds for a failure.
pub open spec fn dump_line_of(url: Seq<char>, row: RowView) -> Seq<char> {
    match row {
        Ok(entry) => "S,"@ + url + ","@ + signed_decimal_text(entry.timestamp.0 as int) + ","@
            + name_of(entry.kind) + ","@ + hex_lower(entry.digest),
        Err(timestamp) => "E,"@ + url + ","@ + signed_decimal_text(timestamp.0 as int) + ",,"@,
    }
}

impl DownloadStatus {
    /// The letter that the status is written as.
    pub fn as_str(&self) -> (letter: &'static str)
        ensures
            letter@ == match self {
                DownloadStatus::Added => "A"@,
                DownloadStatus::Found => "F"@,
            },
    {
        match self {
            DownloadStatus::Added => "A",
            DownloadStatus::Found => "F",
        }
    }

    /// The status that a letter stands for.
    pub fn from_str(letter: &str) -> (status: Option<DownloadStatus>)
        ensures
            status == if letter@ == "A"@ {
                Some(DownloadStatus::Added)
            } else if letter@ == "F"@ {
                Some(DownloadStatus::Found)
            } else {
                None
            },
    {
        if crate::text::str_equal(letter, "A") {
            Some(DownloadStatus::Added)
        } else if crate::text::str_equal(letter, "F") {
            Some(DownloadStatus::Found)
        } else {
            None
        }
    }
}

impl DownloadLogEntry {
    /// The same record once more.
    pub fn copy(&self) -> (copy: DownloadLogEntry)
        ensures
            copy == *self,
    {
        DownloadLogEntry {
            status: self.status,
            timestamp: self.timestamp,
            digest: self.digest,
            image_type: self.image_type,
            url: self.url.clone(),
        }
    }
}

/// The content type told for `digest`.
fn find_type(types: &Vec<(Digest, ImageType)>, digest: &Digest) -> (found: Option<ImageType>)
    ensures
        match found {
            Some(image_type) => type_told(types_view(types@), digest@) == Some(image_type@),
            None => type_told(types_view(types@), digest@) is None,
        },
{
    let ghost all = types_view(types@);
    let mut i: usize = types.len();
    assert(all.take(i as int) =~= all);
    while i > 0
        invariant
            i <= types.len(),
            all == types_view(types@),
            type_told(all, digest@) == type_told(all.take(i as int), digest@),
        decreases i,
    {
        proof {
            assert(all.take(i as int).last() == (types@[i - 1].0@, types@[i - 1].1@));
            assert(all.take(i as int).drop_last() =~= all.take(i - 1));
        }
        if types[i - 1].0.same(digest) {
            return Some(types[i - 1].1);
        }
        i -= 1;
    }
    None
}

impl Import {
    pub closed spec fn view(&self) -> ImportView {
        ImportView {
            types: types_view(self.types@),
            leftovers: entries_view(self.leftovers@),
        }
    }

    /// An import that has taken no record.
    pub fn new() -> (import: Import)
        ensures
            import.view() == (ImportView { types: Seq::empty(), leftovers: Seq::empty() }),
    {
        let import = Import { types: Vec::new(), leftovers: Vec::new() };
        assert(import.view().types =~= Seq::empty());
        assert(import.view().leftovers =~= Seq::empty());
        import
    }

    /// Takes the next record of the log and gives the row to index at once,
    /// if there is one.
    pub fn record(&mut self, entry: DownloadLogEntry) -> (row: Option<(String, Entry)>)
        ensures
            (final(self).view(), indexed_view(row)) == recorded(old(self).view(), entry@),
    {
        let ghost before = self.view();
        match entry.status {
            DownloadStatus::Added => {
                if entry.image_type.value().is_some() {
                    self.types.push((Digest(entry.digest), entry.image_type));
                    assert(types_view(self.types@) =~= before.types.push(
                        (entry.digest@, entry.image_type@),
                    ));
                    Some(
                        (
                            entry.url,
                            Entry {
                                timestamp: entry.timestamp,
                                digest: Digest(entry.digest),
                                image_type: entry.image_type,
                            },
                        ),
                    )
                } else {
                    None
                }
            },
            DownloadStatus::Found => match find_type(&self.types, &Digest(entry.digest)) {
                Some(image_type) => Some(
                    (
                        entry.url,
                        Entry {
                            timestamp: entry.timestamp,
                            digest: Digest(entry.digest),
                            image_type,
                        },
                    ),
                ),
                None => {
                    self.leftovers.push(entry);
                    assert(entries_view(self.leftovers@) =~= before.leftovers.push(entry@));
                    None
                },
            },
        }
    }

    /// Ends the import: the rows to index for the waiting records whose
    /// type was told in the end, and the records whose type never was.
    pub fn finish(self) -> (result: (Vec<(String, Entry)>, Vec<DownloadLogEntry>))
        ensures
            indexed_rows_view(result.0@) == late_rows(self.view().types, self.view().leftovers),
            entries_view(result.1@) == never_told(self.view().types, self.view().leftovers),
    {
        let ghost types = self.view().types;
        let ghost waiting = self.view().leftovers;
        let mut rows: Vec<(String, Entry)> = Vec::new();
        let mut lost: Vec<DownloadLogEntry> = Vec::new();
        let leftovers = self.leftovers;
        let told = self.types;
        let mut i: usize = 0;
        assert(waiting.take(0) =~= Seq::empty());
        assert(indexed_rows_view(rows@) =~= Seq::empty());
        assert(entries_view(lost@) =~= Seq::empty());
        while i < leftovers.len()
            invariant
                i <= leftovers.len(),
                types == types_view(told@),
                waiting == entries_view(leftovers@),
                indexed_rows_view(rows@) == late_rows(types, waiting.take(i as int)),
                entries_view(lost@) == never_told(types, waiting.take(i as int)),
            decreases leftovers.len() - i,
        {
            let entry = leftovers[i].copy();
            proof {
                assert(waiting.take(i + 1).drop_last() =~= waiting.take(i as int));
                assert(waiting.take(i + 1).last() == leftovers@[i as int]@);
            }
            let ghost rows_before = indexed_rows_view(rows@);
            let ghost lost_before = entries_view(lost@);
            match find_type(&told, &Digest(entry.digest)) {
                Some(image_type) => {
                    let row = (
                        entry.url,
                        Entry {
                            timestamp: entry.timestamp,
                            digest: Digest(entry.digest),
                            image_type,
                        },
                    );
                    rows.push(row);
                    assert(indexed_rows_view(rows@) =~= rows_before.push((row.0@, row.1@)));
                },
                None => {
                    lost.push(entry);
                    assert(entries_view(lost@) =~= lost_before.push(entry@));
                },
            }
            i += 1;
        }
        assert(waiting.take(leftovers.len() as int) =~= waiting);
        (rows, lost)
    }
}

/// The fields of the record that is written for a download of `line`.
pub fn download_record(result: &Result<Action, u16>, line: &str) -> (fields: Vec<String>)
    ensures
        names_view(fields@) == record_of(crate::client::download_view(*result), line@),
{
    let mut fields: Vec<String> = Vec::new();
    match result {
        Ok(Action::Added { entry, image_type }) => {
            fields.push(String::from_str("A"));
            fields.push(entry.digest.to_hex());
            fields.push(String::from_str(image_type.as_str()));
            fields.push(String::from_str(line));
        },
        Ok(Action::Found { entry }) => {
            fields.push(String::from_str("F"));
            fields.push(entry.digest.to_hex());
            fields.push(String::from_str(""));
            fields.push(String::from_str(line));
        },
        Err(status) => {
            fields.push(String::from_str("E"));
            fields.push(decimal(*status as u64));
            fields.push(String::from_str(""));
            fields.push(String::from_str(""));
        },
    }
    assert(names_view(fields@) =~= record_of(crate::client::download_view(*result), line@));
    fields
}

/// The line that an index dump writes for an attempt on `url`.
pub fn dump_line(url: &str, row: &Row) -> (line: String)
    ensures
        line@ == dump_line_of(url@, row_view(*row)),
{
    match row {
        Ok(entry) => {
            let mut line = String::from_str("S,");
            line.append(url);
            line.append(",");
            line.append(signed_decimal(entry.timestamp.0).as_str());
            line.append(",");
            line.append(entry.image_type.as_str());
            line.append(",");
            line.append(entry.digest.to_hex().as_str());
            line
        },
        Err(timestamp) => {
            let mut line = String::from_str("E,");
            line.append(url);
            line.append(",");
            line.append(signed_decimal(timestamp.0).as_str());
            line.append(",,");
            line
        },
    }
}

} // verus!
