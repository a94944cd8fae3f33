//! Walking a store's directory tree.
//!
//! The walk visits the tree level by level. The base directory is level 0;
//! the children of a directory at level `k` must be named by exactly the
//! `k`-th prefix part length in lowercase hexadecimal characters, and the
//! children at the last level must be files named by a digest. The walker
//! keeps, for each level it has entered, the paths still to visit there. It
//! reads nothing itself: it says which path to look at next and is told what
//! was found.

use crate::digest::{first_non_hex, hex_value, is_hex, unhex, Digest};
use crate::store::{Entry, EntryView, Error, Store, ValidationResult};
use crate::text::{bytes_less, lex_less, names_view};
use vstd::prelude::*;
use vstd::utf8::encode_utf8;

verus! {

/// Why a path of the tree is not what the store's layout asks for.
#[derive(Debug)]
pub enum IterationError {
    Io(std::io::Error),
    InvalidFileName(Vec<String>),
    ExpectedDirectory(Vec<String>),
    ExpectedFile(Vec<String>),
    Hex(hex::FromHexError),
}

/// An `IterationError` as plain values.
pub enum IterationErrorView {
    Io(std::io::Error),
    InvalidFileName(Seq<Seq<char>>),
    ExpectedDirectory(Seq<Seq<char>>),
    ExpectedFile(Seq<Seq<char>>),
    Hex(hex::FromHexError),
}

impl View for IterationError {
    type V = IterationErrorView;

    open spec fn view(&self) -> IterationErrorView {
        match self {
            IterationError::Io(error) => IterationErrorView::Io(*error),
            IterationError::InvalidFileName(path) => IterationErrorView::InvalidFileName(
                names_view(path@),
            ),
            IterationError::ExpectedDirectory(path) => IterationErrorView::ExpectedDirectory(
                names_view(path@),
            ),
            IterationError::ExpectedFile(path) => IterationErrorView::ExpectedFile(
                names_view(path@),
            ),
            IterationError::Hex(error) => IterationErrorView::Hex(*error),
        }
    }
}

/// What reading a directory gave.
#[derive(Debug)]
pub enum Listing {
    /// The path is no directory.
    NotDirectory,
    /// The directory could not be read.
    Failed(std::io::Error),
    /// The names of the directory's children, in any order.
    Children(Vec<String>),
}

/// A `Listing` as plain values.
pub enum ListingView {
    NotDirectory,
    Failed(std::io::Error),
    Children(Seq<Seq<char>>),
}

impl View for Listing {
    type V = ListingView;

    open spec fn view(&self) -> ListingView {
        match self {
            Listing::NotDirectory => ListingView::NotDirectory,
            Listing::Failed(error) => ListingView::Failed(*error),
            Listing::Children(names) => ListingView::Children(names_view(names@)),
        }
    }
}

/// The path that the walk looks at next.
#[derive(Clone, Debug, Eq, PartialEq)]
pub enum Visit {
    /// A path at the last level, which must be a blob's file.
    File(Vec<String>),
    /// A path above the last level, which must be a directory.
    Directory(Vec<String>),
}

/// A `Visit` as plain values.
pub enum VisitView {
    File(Seq<Seq<char>>),
    Directory(Seq<Seq<char>>),
}

impl View for Visit {
    type V = VisitView;

    open spec fn view(&self) -> VisitView {
        match self {
            Visit::File(path) => VisitView::File(names_view(path@)),
            Visit::Directory(path) => VisitView::Directory(names_view(path@)),
        }
    }
}

/// The walk over a store's entries.
#[derive(Debug)]
pub struct Entries {
    stack: Vec<Vec<Vec<String>>>,
    level: Option<usize>,
    prefix_part_lengths: Vec<usize>,
}

/// Paths as plain values.
pub open spec fn paths_view(paths: Seq<Vec<String>>) -> Seq<Seq<Seq<char>>> {
    paths.map_values(|path: Vec<String>| names_view(path@))
}

/// A lowercase hexadecimal character.
pub open spec fn is_name_byte(byte: u8) -> bool {
    48 <= byte <= 57 || 97 <= byte <= 102
}

/// `name` is made of lowercase hexadecimal characters only.
pub open spec fn is_name(name: Seq<u8>) -> bool {
    forall|i: int| 0 <= i < name.len() ==> is_name_byte(#[trigger] name[i])
}

/// `name` can name a directory at a level of length `length`.
pub open spec fn is_shard_name(name: Seq<char>, length: usize) -> bool {
    encode_utf8(name).len() == length && is_name(encode_utf8(name))
}

/// `a` comes before `b` in the order of the walk.
pub open spec fn name_less(a: Seq<char>, b: Seq<char>) -> bool {
    lex_less(encode_utf8(a), encode_utf8(b))
}

/// Where `name` goes in names that descend: behind the leading names that
/// it does not come after.
pub open spec fn name_position(names: Seq<Seq<char>>, name: Seq<char>) -> int
    decreases names.len(),
{
    if names.len() == 0 || name_less(names[0], name) {
        0
    } else {
        1 + name_position(names.drop_first(), name)
    }
}

/// `names` in descending order, so that taking them from the end visits
/// them in ascending order.
pub open spec fn descending(names: Seq<Seq<char>>) -> Seq<Seq<char>>
    decreases names.len(),
{
    if names.len() == 0 {
        Seq::empty()
    } else {
        let sorted = descending(names.drop_last());
        sorted.insert(name_position(sorted, names.last()), names.last())
    }
}

/// The position of the first of `names` that cannot name a directory at a
/// level of length `length`; the number of names where all can.
pub open spec fn first_invalid(names: Seq<Seq<char>>, length: usize) -> int
    decreases names.len(),
{
    if names.len() == 0 || !is_shard_name(names[0], length) {
        0
    } else {
        1 + first_invalid(names.drop_first(), length)
    }
}

/// The paths of the children `names` of the directory `path`.
pub open spec fn children_of(path: Seq<Seq<char>>, names: Seq<Seq<char>>) -> Seq<Seq<Seq<char>>> {
    names.map_values(|name: Seq<char>| path.push(name))
}

/// The paths to visit below the directory `path`, given what reading it
/// gave. They descend, so that the walk takes them from the end. Where the
/// level has a length, every child must be named by exactly that many
/// lowercase hexadecimal characters; the greatest name that is not is
/// reported.
pub open spec fn listed(path: Seq<Seq<char>>, listing: ListingView, length: Option<usize>) -> Result<
    Seq<Seq<Seq<char>>>,
    IterationErrorView,
> {
    match listing {
        ListingView::NotDirectory => Err(IterationErrorView::ExpectedDirectory(path)),
        ListingView::Failed(error) => Err(IterationErrorView::Io(error)),
        ListingView::Children(names) => {
            let sorted = descending(names);
            if length is Some && first_invalid(sorted, length->0) < sorted.len() {
                Err(
                    IterationErrorView::InvalidFileName(
                        path.push(sorted[first_invalid(sorted, length->0)]),
                    ),
                )
            } else {
                Ok(children_of(path, sorted))
            }
        },
    }
}

/// The entry at `path`, a path of the last level, given whether a regular
/// file is there: the file's name must be the 32 lowercase hexadecimal
/// characters of a digest.
pub open spec fn read_entry(path: Seq<Seq<char>>, is_file: bool) -> Result<
    EntryView,
    IterationErrorView,
> {
    if !is_file {
        Err(IterationErrorView::ExpectedFile(path))
    } else if path.len() == 0 || !is_name(encode_utf8(path.last())) {
        Err(IterationErrorView::InvalidFileName(path))
    } else if encode_utf8(path.last()).len() % 2 != 0 {
        Err(IterationErrorView::Hex(hex::FromHexError::OddLength))
    } else if encode_utf8(path.last()).len() != 32 {
        Err(IterationErrorView::Hex(hex::FromHexError::InvalidStringLength))
    } else {
        Ok(EntryView { path, digest: unhex(encode_utf8(path.last())) })
    }
}

/// The level above `level`.
pub open spec fn lowered(level: Option<usize>) -> Option<usize> {
    match level {
        Some(level) if level != 0 => Some((level - 1) as usize),
        _ => None,
    }
}

/// The level below `level`.
pub open spec fn raised(level: Option<usize>) -> Option<usize> {
    match level {
        Some(level) => Some((level + 1) as usize),
        None => Some(0),
    }
}

/// The level reached from `level` by going up `by` times.
pub open spec fn lowered_by(level: Option<usize>, by: nat) -> Option<usize>
    decreases by,
{
    if by == 0 {
        level
    } else {
        lowered(lowered_by(level, (by - 1) as nat))
    }
}

/// The number of exhausted levels at the top of the stack.
pub open spec fn exhausted(stack: Seq<Seq<Seq<Seq<char>>>>) -> nat
    decreases stack.len(),
{
    if stack.len() == 0 || stack.last().len() > 0 {
        0
    } else {
        1 + exhausted(stack.drop_last())
    }
}

/// What taking the next path from the stack leaves and gives: the stack and
/// the level afterwards, and the path to look at, if any is left. The
/// exhausted levels at the top are left behind, one level up for each; then
/// the last path of the level on top is taken, as a file where that level
/// is the last one, as a directory otherwise.
pub open spec fn taken(stack: Seq<Seq<Seq<Seq<char>>>>, level: Option<usize>, lengths: Seq<usize>) -> (
    Seq<Seq<Seq<Seq<char>>>>,
    Option<usize>,
    Option<VisitView>,
) {
    let left = stack.len() - exhausted(stack);
    let level = lowered_by(level, exhausted(stack));
    if left <= 0 {
        (Seq::empty(), level, None)
    } else {
        let top = stack[left - 1];
        (
            stack.take(left - 1).push(top.drop_last()),
            level,
            Some(
                if level == Some(lengths.len() as usize) {
                    VisitView::File(top.last())
                } else {
                    VisitView::Directory(top.last())
                },
            ),
        )
    }
}

/// The length of directory names at `level`, if the level has one.
pub open spec fn length_at(lengths: Seq<usize>, level: Option<usize>) -> Option<usize> {
    match level {
        Some(level) if level < lengths.len() => Some(lengths[level as int]),
        _ => None,
    }
}

pub open spec fn entry_result_view(result: Result<Entry, IterationError>) -> Result<
    EntryView,
    IterationErrorView,
> {
    match result {
        Ok(entry) => Ok(entry@),
        Err(error) => Err(error@),
    }
}

pub open spec fn paths_result_view(result: Result<Vec<Vec<String>>, IterationError>) -> Result<
    Seq<Seq<Seq<char>>>,
    IterationErrorView,
> {
    match result {
        Ok(paths) => Ok(paths_view(paths@)),
        Err(error) => Err(error@),
    }
}

pub open spec fn visit_view(visit: Option<Visit>) -> Option<VisitView> {
    match visit {
        Some(visit) => Some(visit@),
        None => None,
    }
}

/// Whether `name` is made of lowercase hexadecimal characters only.
fn is_valid_name(name: &str) -> (valid: bool)
    ensures
        valid == is_name(encode_utf8(name@)),
{
    let bytes = name.as_bytes();
    let mut i: usize = 0;
    while i < bytes.len()
        invariant
            i <= bytes.len(),
            bytes@ == encode_utf8(name@),
            forall|j: int| 0 <= j < i ==> is_name_byte(#[trigger] bytes@[j]),
        decreases bytes.len() - i,
    {
        if !Entries::is_valid_char(bytes[i]) {
            return false;
        }
        i += 1;
    }
    true
}

/// `names` in descending order.
fn sort_descending(names: Vec<String>) -> (sorted: Vec<String>)
    ensures
        names_view(sorted@) == descending(names_view(names@)),
{
    let mut sorted: Vec<String> = Vec::new();
    let mut i: usize = 0;
    assert(names_view(names@).take(0) =~= Seq::<Seq<char>>::empty());
    assert(names_view(sorted@) =~= Seq::<Seq<char>>::empty());
    while i < names.len()
        invariant
            i <= names.len(),
            names_view(sorted@) == descending(names_view(names@).take(i as int)),
        decreases names.len() - i,
    {
        let name = names[i].clone();
        let mut at: usize = 0;
        let ghost before = names_view(sorted@);
        assert(before.skip(0) =~= before);
        while at < sorted.len() && !bytes_less(
            sorted[at].as_str().as_bytes(),
            name.as_str().as_bytes(),
        )
            invariant
                at <= sorted.len(),
                before == names_view(sorted@),
                name_position(before, name@) == at + name_position(before.skip(at as int), name@),
            decreases sorted.len() - at,
        {
            proof {
                assert(before.skip(at as int)[0] == sorted@[at as int]@);
                assert(before.skip(at as int).drop_first() =~= before.skip(at + 1));
            }
            at += 1;
        }
        proof {
            if at < sorted.len() {
                assert(before.skip(at as int)[0] == sorted@[at as int]@);
            }
            let prefix = names_view(names@).take(i + 1);
            assert(prefix.drop_last() =~= names_view(names@).take(i as int));
            assert(prefix.last() == name@);
        }
        sorted.insert(at, name);
        assert(names_view(sorted@) =~= before.insert(at as int, name@));
        i += 1;
    }
    assert(names_view(names@).take(names.len() as int) =~= names_view(names@));
    sorted
}

/// The position of the first of `names` that cannot name a directory at a
/// level of length `length`.
fn find_invalid(names: &Vec<String>, length: usize) -> (at: usize)
    ensures
        at == first_invalid(names_view(names@), length),
        at <= names@.len(),
{
    let ghost all = names_view(names@);
    let mut at: usize = 0;
    assert(all.skip(0) =~= all);
    while at < names.len()
        invariant
            at <= names.len(),
            all == names_view(names@),
            first_invalid(all, length) == at + first_invalid(all.skip(at as int), length),
        decreases names.len() - at,
    {
        let name = names[at].as_str();
        proof {
            assert(all.skip(at as int)[0] == names@[at as int]@);
            assert(all.skip(at as int).drop_first() =~= all.skip(at + 1));
        }
        if name.as_bytes().len() != length || !is_valid_name(name) {
            return at;
        }
        at += 1;
    }
    at
}

impl Entries {
    /// The paths still to visit at each level that the walk has entered,
    /// the deepest level last. The paths of a level descend and are taken
    /// from the end.
    pub closed spec fn stack(&self) -> Seq<Seq<Seq<Seq<char>>>> {
        self.stack@.map_values(|paths: Vec<Vec<String>>| paths_view(paths@))
    }

    /// The level of the directories whose children are on top of the stack;
    /// none before the base directory has been entered.
    pub closed spec fn at_level(&self) -> Option<usize> {
        self.level
    }

    /// The prefix part lengths of the store that is walked.
    pub closed spec fn lengths(&self) -> Seq<usize> {
        self.prefix_part_lengths@
    }

    /// A walk that has the base directory to visit and nothing else.
    pub fn new(base: &String, prefix_part_lengths: &Vec<usize>) -> (entries: Entries)
        ensures
            entries.stack() == seq![seq![seq![base@]]],
            entries.at_level() is None,
            entries.lengths() == prefix_part_lengths@,
    {
        let mut path: Vec<String> = Vec::new();
        path.push(base.clone());
        let mut paths: Vec<Vec<String>> = Vec::new();
        paths.push(path);
        let mut stack: Vec<Vec<Vec<String>>> = Vec::new();
        stack.push(paths);
        let entries = Entries {
            stack,
            level: None,
            prefix_part_lengths: prefix_part_lengths.clone(),
        };
        proof {
            assert(names_view(path@) =~= seq![base@]);
            assert(paths_view(paths@) =~= seq![seq![base@]]);
            assert(entries.stack() =~= seq![seq![seq![base@]]]);
        }
        entries
    }

    /// The level of the directories whose children are on top of the stack.
    pub fn level(&self) -> (level: Option<usize>)
        ensures
            level == self.at_level(),
    {
        self.level
    }

    /// Whether the paths on top of the stack are at the last level, where
    /// the blobs' files lie.
    pub fn is_last(&self) -> (last: bool)
        ensures
            last == (self.at_level() == Some(self.lengths().len() as usize)),
    {
        match self.level {
            Some(level) => level == self.prefix_part_lengths.len(),
            None => false,
        }
    }

    /// The length of the directory names at the current level, if it has
    /// one.
    pub fn current_prefix_part_length(&self) -> (length: Option<usize>)
        ensures
            length == length_at(self.lengths(), self.at_level()),
    {
        match self.level {
            Some(level) => if level < self.prefix_part_lengths.len() {
                Some(self.prefix_part_lengths[level])
            } else {
                None
            },
            None => None,
        }
    }

    /// Goes one level down.
    pub fn increment_level(&mut self)
        requires
            old(self).at_level() != Some(usize::MAX),
        ensures
            final(self).at_level() == raised(old(self).at_level()),
            final(self).stack() == old(self).stack(),
            final(self).lengths() == old(self).lengths(),
    {
        self.level = Some(
            match self.level {
                Some(level) => level + 1,
                None => 0,
            },
        );
    }

    /// Goes one level up.
    pub fn decrement_level(&mut self)
        ensures
            final(self).at_level() == lowered(old(self).at_level()),
            final(self).stack() == old(self).stack(),
            final(self).lengths() == old(self).lengths(),
    {
        self.level = match self.level {
            Some(level) => if level != 0 {
                Some(level - 1)
            } else {
                None
            },
            None => None,
        };
    }

    /// Whether `byte` is a lowercase hexadecimal character.
    pub fn is_valid_char(byte: u8) -> (valid: bool)
        ensures
            valid == is_name_byte(byte),
    {
        (48 <= byte && byte <= 57) || (97 <= byte && byte <= 102)
    }

    /// The entry at `path`, a path of the last level, where `is_file` says
    /// whether a regular file is there.
    pub fn path_to_entry(path: Vec<String>, is_file: bool) -> (result: Result<
        Entry,
        IterationError,
    >)
        ensures
            entry_result_view(result) == read_entry(names_view(path@), is_file),
    {
        if !is_file {
            return Err(IterationError::ExpectedFile(path));
        }
        if path.len() == 0 {
            return Err(IterationError::InvalidFileName(path));
        }
        let ghost last = names_view(path@).last();
        assert(last == path@[path@.len() - 1]@);
        if !is_valid_name(path[path.len() - 1].as_str()) {
            return Err(IterationError::InvalidFileName(path));
        }
        let decoded = Digest::from_hex(path[path.len() - 1].as_str().as_bytes());
        proof {
            let name = encode_utf8(last);
            assert(is_hex(name)) by {
                assert forall|i: int| 0 <= i < name.len() implies (#[trigger] hex_value(
                    name[i],
                )) is Some by {
                    assert(is_name_byte(name[i]));
                }
            }
            if let Err(hex::FromHexError::InvalidHexCharacter { c, index }) = decoded {
                assert(first_non_hex(name, index as int));
                assert(hex_value(name[index as int]) is Some);
            }
        }
        match decoded {
            Ok(digest) => Ok(Entry { path, digest }),
            Err(error) => Err(IterationError::Hex(error)),
        }
    }

    /// The paths to visit below the directory `path`, given what reading it
    /// gave and the length of names at its level.
    pub fn path_to_paths(
        path: Vec<String>,
        listing: Listing,
        prefix_part_length: Option<usize>,
    ) -> (result: Result<Vec<Vec<String>>, IterationError>)
        ensures
            paths_result_view(result) == listed(names_view(path@), listing@, prefix_part_length),
    {
        let names = match listing {
            Listing::NotDirectory => {
                return Err(IterationError::ExpectedDirectory(path));
            },
            Listing::Failed(error) => {
                return Err(IterationError::Io(error));
            },
            Listing::Children(names) => names,
        };
        let sorted = sort_descending(names);
        let ghost parent = names_view(path@);
        let ghost all = names_view(sorted@);
        if let Some(length) = prefix_part_length {
            let at = find_invalid(&sorted, length);
            if at < sorted.len() {
                let mut invalid = path;
                invalid.push(sorted[at].clone());
                assert(names_view(invalid@) =~= parent.push(all[at as int]));
                return Err(IterationError::InvalidFileName(invalid));
            }
        }
        let mut paths: Vec<Vec<String>> = Vec::new();
        let mut i: usize = 0;
        while i < sorted.len()
            invariant
                i <= sorted.len(),
                parent == names_view(path@),
                all == names_view(sorted@),
                paths@.len() == i,
                forall|j: int|
                    0 <= j < i ==> names_view(#[trigger] paths@[j]@) == parent.push(all[j]),
            decreases sorted.len() - i,
        {
            let mut child = path.clone();
            child.push(sorted[i].clone());
            assert(names_view(child@) =~= parent.push(all[i as int]));
            paths.push(child);
            i += 1;
        }
        assert(paths_view(paths@) =~= children_of(parent, all));
        Ok(paths)
    }

    /// The path to look at next, if the walk is not over. Levels that have
    /// no path left are left behind, one level up for each; then the least
    /// path of the level on top is taken.
    pub fn next(&mut self) -> (visit: Option<Visit>)
        ensures
            final(self).lengths() == old(self).lengths(),
            (final(self).stack(), final(self).at_level(), visit_view(visit)) == taken(
                old(self).stack(),
                old(self).at_level(),
                old(self).lengths(),
            ),
    {
        let ghost start = self.stack();
        let ghost mut gone: nat = 0;
        proof {
            assert(start.take(start.len() as int) =~= start);
            lemma_exhausted(start);
        }
        loop
            invariant
                self.lengths() == old(self).lengths(),
                start == old(self).stack(),
                gone <= start.len(),
                self.stack() == start.take(start.len() - gone),
                exhausted(start) == gone + exhausted(self.stack()),
                self.at_level() == lowered_by(old(self).at_level(), gone),
            decreases self.stack@.len(),
        {
            let ghost current = self.stack();
            match self.stack.pop() {
                None => {
                    assert(self.stack() =~= Seq::<Seq<Seq<Seq<char>>>>::empty());
                    return None;
                },
                Some(mut paths) => {
                    let ghost below = self.stack();
                    let ghost top = paths_view(paths@);
                    assert(below =~= current.drop_last());
                    assert(top == current.last());
                    match paths.pop() {
                        Some(path) => {
                            assert(paths_view(paths@) =~= top.drop_last());
                            assert(names_view(path@) == top.last());
                            self.stack.push(paths);
                            assert(self.stack() =~= below.push(top.drop_last()));
                            assert(below =~= start.take(start.len() - gone - 1));
                            return Some(
                                if self.is_last() {
                                    Visit::File(path)
                                } else {
                                    Visit::Directory(path)
                                },
                            );
                        },
                        None => {
                            self.decrement_level();
                            proof {
                                assert(below =~= start.take(start.len() - gone - 1));
                                gone = gone + 1;
                            }
                        },
                    }
                },
            }
        }
    }

    /// Enters the directory `path`, given what reading it gave: its children
    /// become the level on top of the stack. Where the directory is not as
    /// the layout asks, the error comes back and the walk stays where it is.
    pub fn descend(&mut self, path: Vec<String>, listing: Listing) -> (result: Result<
        (),
        IterationError,
    >)
        requires
            old(self).at_level() != Some(usize::MAX),
        ensures
            final(self).lengths() == old(self).lengths(),
            match listed(
                names_view(path@),
                listing@,
                length_at(old(self).lengths(), raised(old(self).at_level())),
            ) {
                Ok(children) => {
                    &&& result is Ok
                    &&& final(self).stack() == old(self).stack().push(children)
                    &&& final(self).at_level() == raised(old(self).at_level())
                },
                Err(error) => {
                    &&& result matches Err(e) && e@ == error
                    &&& final(self).stack() == old(self).stack()
                    &&& final(self).at_level() == old(self).at_level()
                },
            },
    {
        self.increment_level();
        match Self::path_to_paths(path, listing, self.current_prefix_part_length()) {
            Ok(children) => {
                let ghost below = self.stack();
                self.stack.push(children);
                assert(self.stack() =~= below.push(paths_view(children@)));
                Ok(())
            },
            Err(error) => {
                self.decrement_level();
                Err(error)
            },
        }
    }

    /// Checks the bytes read from an entry's file against its digest.
    /// `contents` holds what reading the file gave.
    pub fn validate(entry: Entry, contents: Result<Vec<u8>, std::io::Error>) -> (result: Result<
        ValidationResult,
        IterationError,
    >)
        ensures
            match contents {
                Err(error) => result == Err::<ValidationResult, IterationError>(
                    IterationError::Io(error),
                ),
                Ok(bytes) => match entry.mismatch(bytes@) {
                    None => result == Ok::<ValidationResult, IterationError>(
                        ValidationResult::Valid { entry },
                    ),
                    Some(digest) => result matches Ok(
                        ValidationResult::Invalid { entry: found, actual },
                    ) && found == entry && actual@ == digest,
                },
            },
    {
        match contents {
            Err(error) => Err(IterationError::Io(error)),
            Ok(bytes) => match entry.validate(bytes.as_slice()) {
                Ok(()) => Ok(ValidationResult::Valid { entry }),
                Err(actual) => Ok(ValidationResult::Invalid { entry, actual }),
            },
        }
    }

    /// As `validate`, with a blob that is not what its name says as an
    /// error.
    pub fn validate_fail_fast(entry: Entry, contents: Result<Vec<u8>, std::io::Error>) -> (result:
        Result<Entry, Error>)
        ensures
            match contents {
                Err(error) => result == Err::<Entry, Error>(
                    Error::Iteration(IterationError::Io(error)),
                ),
                Ok(bytes) => match entry.mismatch(bytes@) {
                    None => result == Ok::<Entry, Error>(entry),
                    Some(digest) => result matches Err(
                        Error::UnexpectedDigest { expected, actual },
                    ) && expected == entry.digest && actual@ == digest,
                },
            },
    {
        match Self::validate(entry, contents) {
            Err(error) => Err(Error::Iteration(error)),
            Ok(validated) => validated.result(),
        }
    }
}

/// The exhausted levels are levels of the stack, and the level below them,
/// if there is one, has a path left.
pub proof fn lemma_exhausted(stack: Seq<Seq<Seq<Seq<char>>>>)
    ensures
        exhausted(stack) <= stack.len(),
        exhausted(stack) < stack.len() ==> stack[stack.len() - exhausted(stack) - 1].len() > 0,
    decreases stack.len(),
{
    if stack.len() > 0 && stack.last().len() == 0 {
        lemma_exhausted(stack.drop_last());
    }
}

impl Store {
    /// The walk over this store's entries, about to visit the base
    /// directory.
    #[must_use]
    pub fn entries(&self) -> (entries: Entries)
        ensures
            entries.stack() == seq![seq![seq![self.base@]]],
            entries.at_level() is None,
            entries.lengths() == self.prefix_part_lengths@,
    {
        Entries::new(&self.base, &self.prefix_part_lengths)
    }
}

} // verus!
