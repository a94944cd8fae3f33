//! The blob store: where a blob goes, and what saving it does.
//!
//! A blob is kept in a file named by the 32 hexadecimal characters of its
//! digest. The file lies below the store's base directory in nested
//! directories whose names are consecutive slices of that name; the lengths
//! of the slices are the store's prefix part lengths. A path is written as
//! its components, the base first.

pub mod entries;
pub mod infer;
pub mod layout;
pub mod lengths;
pub mod walk;

use crate::digest::{hex_lower, md5_of, Digest};
use crate::image_type::{detected, ImageType};
use crate::store::entries::IterationError;
use crate::text::names_view;
use imghdr::Type;
use vstd::prelude::*;
use vstd::slice::slice_to_vec;
use vstd::string::StrSliceExecFns;
use vstd::string::StringExecFns;
use vstd::utf8::is_ascii_chars;

verus! {

/// Stands for `std::io::Error`. Nothing is known of what such an error
/// holds: it is handed on as it came.
#[verifier::external_type_specification]
#[verifier::external_body]
pub struct ExIoError(std::io::Error);

/// Why a blob could not be stored or checked.
#[derive(Debug)]
pub enum Error {
    Io(std::io::Error),
    InvalidFileName(Vec<String>),
    ExpectedDirectory(Vec<String>),
    UnexpectedDigest { expected: Digest, actual: Digest },
    Iteration(IterationError),
}

/// Why a store cannot be set up.
#[derive(Debug)]
pub enum InitializationError {
    /// The lengths hold a zero or add up to more than the 32 characters of
    /// a digest's name.
    InvalidPrefixPartLengths(Vec<usize>),
}

/// A stored blob: where its file lies and the digest it is named by.
#[derive(Clone, Debug, Eq, PartialEq)]
pub struct Entry {
    pub path: Vec<String>,
    pub digest: Digest,
}

/// An `Entry` as plain values.
pub struct EntryView {
    pub path: Seq<Seq<char>>,
    pub digest: Seq<u8>,
}

impl View for Entry {
    type V = EntryView;

    open spec fn view(&self) -> EntryView {
        EntryView { path: names_view(self.path@), digest: self.digest@ }
    }
}

/// What checking a stored blob against its name found.
#[derive(Clone, Debug, Eq, PartialEq)]
pub enum ValidationResult {
    Valid { entry: Entry },
    Invalid { entry: Entry, actual: Digest },
}

/// What saving a blob did.
#[derive(Clone, Debug, Eq, PartialEq)]
pub enum Action {
    /// The blob was new and has been written.
    Added { entry: Entry, image_type: ImageType },
    /// A file of that name was there already; nothing was written.
    Found { entry: Entry },
}

/// An `Action` as plain values.
pub enum ActionView {
    Added { entry: EntryView, kind: Option<Type> },
    Found { entry: EntryView },
}

impl View for Action {
    type V = ActionView;

    open spec fn view(&self) -> ActionView {
        match self {
            Action::Added { entry, image_type } => ActionView::Added {
                entry: entry@,
                kind: image_type@,
            },
            Action::Found { entry } => ActionView::Found { entry: entry@ },
        }
    }
}

/// A blob store: its base directory and the lengths of the directory names
/// at each level below it.
#[derive(Clone, Debug)]
pub struct Store {
    pub base: String,
    pub prefix_part_lengths: Vec<usize>,
}

/// The sum of `lengths`.
pub open spec fn total(lengths: Seq<usize>) -> int
    decreases lengths.len(),
{
    if lengths.len() == 0 {
        0
    } else {
        total(lengths.drop_last()) + lengths.last()
    }
}

/// `lengths` can carve up the name of a digest: none is zero and together
/// they take no more than its 32 characters.
pub open spec fn valid_lengths(lengths: Seq<usize>) -> bool {
    &&& total(lengths) <= 32
    &&& forall|i: int| 0 <= i < lengths.len() ==> lengths[i] != 0
}

/// The name of the directory at level `k`: the slice of `name` that starts
/// where the slices before it end.
pub open spec fn segment(lengths: Seq<usize>, name: Seq<char>, k: int) -> Seq<char> {
    name.subrange(total(lengths.take(k)), total(lengths.take(k + 1)))
}

/// The path of the blob with digest `digest`: the base, one directory for
/// each length, and the full name of the digest as the file's name.
pub open spec fn path_of(base: Seq<char>, lengths: Seq<usize>, digest: Seq<u8>) -> Seq<Seq<char>> {
    seq![base] + Seq::new(lengths.len(), |k: int| segment(lengths, hex_lower(digest), k))
        + seq![hex_lower(digest)]
}

/// What saving `bytes` at `entry` does, where a file is there already or is
/// not.
pub open spec fn save_result(entry: EntryView, bytes: Seq<u8>, exists: bool) -> ActionView {
    if exists {
        ActionView::Found { entry }
    } else {
        ActionView::Added { entry, kind: detected(bytes) }
    }
}

/// What saving `bytes` does in a store where a file of their name exists or
/// does not.
pub open spec fn saved(
    base: Seq<char>,
    lengths: Seq<usize>,
    bytes: Seq<u8>,
    exists: bool,
) -> ActionView {
    save_result(
        EntryView { path: path_of(base, lengths, md5_of(bytes)), digest: md5_of(bytes) },
        bytes,
        exists,
    )
}

/// The sum of the first lengths is no more than the sum of all.
pub proof fn lemma_total_take(lengths: Seq<usize>, k: int)
    requires
        0 <= k <= lengths.len(),
    ensures
        0 <= total(lengths.take(k)) <= total(lengths),
    decreases lengths.len() - k,
{
    if k == lengths.len() {
        assert(lengths.take(k) =~= lengths);
        lemma_total_nonnegative(lengths);
    } else {
        lemma_total_take(lengths, k + 1);
        lemma_total_nonnegative(lengths.take(k));
        assert(lengths.take(k + 1).drop_last() =~= lengths.take(k));
        assert(total(lengths.take(k + 1)) == total(lengths.take(k)) + lengths[k]);
    }
}

proof fn lemma_total_nonnegative(lengths: Seq<usize>)
    ensures
        0 <= total(lengths),
    decreases lengths.len(),
{
    if lengths.len() > 0 {
        lemma_total_nonnegative(lengths.drop_last());
    }
}

/// The name of a digest is made of ASCII characters.
pub proof fn lemma_hex_is_ascii(bytes: Seq<u8>)
    ensures
        is_ascii_chars(hex_lower(bytes)),
        hex_lower(bytes).len() == 2 * bytes.len(),
{
}

impl Action {
    #[must_use]
    pub fn is_added(&self) -> (added: bool)
        ensures
            added == (self is Added),
    {
        match self {
            Action::Added { .. } => true,
            Action::Found { .. } => false,
        }
    }

    #[must_use]
    pub fn entry(&self) -> (entry: &Entry)
        ensures
            *entry == match self {
                Action::Added { entry, .. } => *entry,
                Action::Found { entry } => *entry,
            },
    {
        match self {
            Action::Added { entry, .. } => entry,
            Action::Found { entry } => entry,
        }
    }

    /// The format that was recognised when the blob was added.
    #[must_use]
    pub fn image_type(&self) -> (kind: Option<Type>)
        ensures
            kind == match self {
                Action::Added { image_type, .. } => image_type@,
                Action::Found { .. } => None,
            },
    {
        match self {
            Action::Added { image_type, .. } => image_type.value(),
            Action::Found { .. } => None,
        }
    }
}

impl ValidationResult {
    /// The entry where the blob is what its name says, else the two digests.
    pub fn result(self) -> (result: Result<Entry, Error>)
        ensures
            match self {
                ValidationResult::Valid { entry } => result == Ok::<Entry, Error>(entry),
                ValidationResult::Invalid { entry, actual } => result == Err::<Entry, Error>(
                    Error::UnexpectedDigest { expected: entry.digest, actual },
                ),
            },
    {
        match self {
            ValidationResult::Valid { entry } => Ok(entry),
            ValidationResult::Invalid { entry, actual } => Err(
                Error::UnexpectedDigest { expected: entry.digest, actual },
            ),
        }
    }
}

impl Entry {
    /// The digest of `bytes` where it is not the digest of this entry.
    pub open spec fn mismatch(&self, bytes: Seq<u8>) -> Option<Seq<u8>> {
        if md5_of(bytes) == self.digest@ {
            None
        } else {
            Some(md5_of(bytes))
        }
    }

    /// Checks the bytes read from the entry's file against its digest: the
    /// digest of `bytes` comes back as the error where it is another.
    pub fn validate(&self, bytes: &[u8]) -> (result: Result<(), Digest>)
        ensures
            match result {
                Ok(()) => self.mismatch(bytes@) is None,
                Err(actual) => self.mismatch(bytes@) == Some(actual@),
            },
    {
        let digest = Digest::compute(bytes);
        if digest.same(&self.digest) {
            Ok(())
        } else {
            Err(digest)
        }
    }
}

impl Store {
    /// The lengths can carve up the name of a digest.
    pub open spec fn wf(&self) -> bool {
        valid_lengths(self.prefix_part_lengths@)
    }

    /// Whether the lengths can carve up the name of a digest.
    pub fn is_valid(&self) -> (valid: bool)
        ensures
            valid == self.wf(),
    {
        let mut sum: usize = 0;
        let mut i: usize = 0;
        let ghost lengths = self.prefix_part_lengths@;
        assert(lengths.take(0) =~= Seq::<usize>::empty());
        while i < self.prefix_part_lengths.len()
            invariant
                i <= lengths.len(),
                lengths == self.prefix_part_lengths@,
                sum == total(lengths.take(i as int)),
                sum <= 32,
                forall|j: int| 0 <= j < i ==> lengths[j] != 0,
            decreases lengths.len() - i,
        {
            let length = self.prefix_part_lengths[i];
            proof {
                assert(lengths.take(i + 1).drop_last() =~= lengths.take(i as int));
                lemma_total_take(lengths, i + 1);
            }
            if length == 0 || length > 32 - sum {
                return false;
            }
            sum += length;
            i += 1;
        }
        assert(lengths.take(i as int) =~= lengths);
        true
    }

    /// A store at `base` that keeps every blob directly in the base
    /// directory.
    pub fn new(base: &str) -> (store: Store)
        ensures
            store.base@ == base@,
            store.prefix_part_lengths@ == Seq::<usize>::empty(),
            store.wf(),
    {
        Store { base: base.to_owned(), prefix_part_lengths: Vec::new() }
    }

    /// The store with the given lengths of directory names, where none of
    /// them is zero and they add up to no more than 32.
    pub fn with_prefix_part_lengths(self, prefix_part_lengths: &[usize]) -> (result: Result<
        Store,
        InitializationError,
    >)
        ensures
            match result {
                Ok(store) => {
                    &&& valid_lengths(prefix_part_lengths@)
                    &&& store.base == self.base
                    &&& store.prefix_part_lengths@ == prefix_part_lengths@
                },
                Err(InitializationError::InvalidPrefixPartLengths(lengths)) => {
                    &&& !valid_lengths(prefix_part_lengths@)
                    &&& lengths@ == prefix_part_lengths@
                },
            },
    {
        let store = Store { base: self.base, prefix_part_lengths: slice_to_vec(prefix_part_lengths) };
        if store.is_valid() {
            Ok(store)
        } else {
            Err(InitializationError::InvalidPrefixPartLengths(store.prefix_part_lengths))
        }
    }

    /// The path of the blob with digest `digest`.
    #[must_use]
    pub fn path(&self, digest: Digest) -> (path: Vec<String>)
        requires
            self.wf(),
        ensures
            names_view(path@) == path_of(self.base@, self.prefix_part_lengths@, digest@),
    {
        let name = digest.to_hex();
        let ghost lengths = self.prefix_part_lengths@;
        let mut path: Vec<String> = Vec::new();
        path.push(self.base.clone());
        let mut at: usize = 0;
        let mut k: usize = 0;
        proof {
            lemma_hex_is_ascii(digest@);
            assert(lengths.take(0) =~= Seq::<usize>::empty());
        }
        while k < self.prefix_part_lengths.len()
            invariant
                k <= lengths.len(),
                lengths == self.prefix_part_lengths@,
                valid_lengths(lengths),
                at == total(lengths.take(k as int)),
                name@ == hex_lower(digest@),
                name@.len() == 32,
                is_ascii_chars(name@),
                path@.len() == k + 1,
                names_view(path@) == seq![self.base@] + Seq::new(
                    k as nat,
                    |j: int| segment(lengths, name@, j),
                ),
            decreases lengths.len() - k,
        {
            let length = self.prefix_part_lengths[k];
            proof {
                assert(lengths.take(k + 1).drop_last() =~= lengths.take(k as int));
                lemma_total_take(lengths, k + 1);
            }
            let part = name.as_str().substring_ascii(at, at + length);
            let ghost before = names_view(path@);
            path.push(String::from_str(part));
            assert(names_view(path@) =~= before.push(segment(lengths, name@, k as int)));
            assert(names_view(path@) =~= seq![self.base@] + Seq::new(
                (k + 1) as nat,
                |j: int| segment(lengths, name@, j),
            ));
            at += length;
            k += 1;
        }
        let ghost before = names_view(path@);
        path.push(name);
        assert(names_view(path@) =~= before.push(hex_lower(digest@)));
        assert(names_view(path@) =~= path_of(self.base@, lengths, digest@));
        path
    }

    /// Where `bytes` are kept: their digest and the path of their file.
    pub fn locate(&self, bytes: &[u8]) -> (entry: Entry)
        requires
            self.wf(),
        ensures
            entry@.digest == md5_of(bytes@),
            entry@.path == path_of(self.base@, self.prefix_part_lengths@, md5_of(bytes@)),
    {
        let digest = Digest::compute(bytes);
        Entry { path: self.path(digest), digest }
    }

    /// What saving `bytes` at `entry` does, whatever the bytes. Where the
    /// file exists, it is found and left as it is. Where it does not, the
    /// blob is added with the content type of its header; blobs under eight
    /// bytes have none.
    pub fn save_at(entry: Entry, bytes: &[u8], exists: bool) -> (action: Action)
        ensures
            action@ == save_result(entry@, bytes@, exists),
    {
        if exists {
            Action::Found { entry }
        } else {
            Action::Added { entry, image_type: ImageType::detect(bytes) }
        }
    }

    /// What saving `bytes` in this store does, where `exists` says whether
    /// the file of their name is there already.
    pub fn save(&self, bytes: &[u8], exists: bool) -> (action: Action)
        requires
            self.wf(),
        ensures
            action@ == saved(self.base@, self.prefix_part_lengths@, bytes@, exists),
    {
        Self::save_at(self.locate(bytes), bytes, exists)
    }
}

} // verus!
