use image_scraper::digest::Digest;
use image_scraper::image_type::ImageType;
use image_scraper::store::entries::{Entries, IterationError, Listing, Visit};
use image_scraper::store::infer::{Probe, Step};
use image_scraper::store::{Action, Entry, Error, InitializationError, Store, ValidationResult};
use std::collections::{BTreeMap, BTreeSet};

const MINIMAL_JPG_HEX: &str = "ffd8ffe000104a46494600010100000100010000ffdb004300080606070605080707070909080a0c140d0c0b0b0c1912130f141d1a1f1e1d1a1c1c20242e2720222c231c1c2837292c30313434341f27393d38323c2e333432ffdb0043010909090c0b0c180d0d1832211c21323232323232323232323232323232323232323232323232323232323232323232323232323232ffc00011080001000103011100021101031101ffc4001f00000105010101010101000000000000000102030405060708090a0bffc400b51000020103030204030505040400017d010203000411051221314106135161712232819114a1b1c1d1f0e123f1ffda000c03010002110311003f00ff00ffd9";
const MINIMAL_PNG_HEX: &str = "89504e470d0a1a0a0000000d4948445200000001000000010802000000907724d90000000a49444154789c6360000002000185d114090000000049454e44ae426082";

fn minimal_jpg_bytes() -> Vec<u8> {
    hex::decode(MINIMAL_JPG_HEX).unwrap()
}

fn minimal_png_bytes() -> Vec<u8> {
    hex::decode(MINIMAL_PNG_HEX).unwrap()
}

fn empty_bytes() -> Vec<u8> {
    vec![]
}

fn text_bytes() -> Vec<u8> {
    "foo bar baz".as_bytes().to_vec()
}

fn minimal_jpg_digest() -> [u8; 16] {
    hex::FromHex::from_hex("79c09c11a8f92599f3c6d389564dd24d").unwrap()
}

fn minimal_png_digest() -> [u8; 16] {
    hex::FromHex::from_hex("ddf93a3305d41f70e19bb8a04ac673a5").unwrap()
}

fn empty_digest() -> [u8; 16] {
    hex::FromHex::from_hex("d41d8cd98f00b204e9800998ecf8427e").unwrap()
}

fn text_digest() -> [u8; 16] {
    hex::FromHex::from_hex("ab07acbb1e496801937adfa772424bf7").unwrap()
}

/// A directory tree held in memory: the files and the directories, each by
/// its path, with the bytes of each file.
struct Disk {
    files: BTreeMap<Vec<String>, Vec<u8>>,
    directories: BTreeSet<Vec<String>>,
}

impl Disk {
    fn new(base: &str) -> Self {
        let mut directories = BTreeSet::new();
        directories.insert(vec![base.to_string()]);
        Self { files: BTreeMap::new(), directories }
    }

    fn create_dir_all(&mut self, path: &[String]) {
        for depth in 1..=path.len() {
            self.directories.insert(path[..depth].to_vec());
        }
    }

    fn write(&mut self, path: &[String], bytes: &[u8]) {
        self.create_dir_all(&path[..path.len() - 1]);
        self.files.insert(path.to_vec(), bytes.to_vec());
    }

    fn is_file(&self, path: &[String]) -> bool {
        self.files.contains_key(path)
    }

    fn is_dir(&self, path: &[String]) -> bool {
        self.directories.contains(path)
    }

    /// The names of the children of a directory, last name first, so that no
    /// test passes by the order in which a listing happens to come.
    fn children(&self, path: &[String]) -> Vec<String> {
        let mut names = BTreeSet::new();
        for other in self.files.keys().chain(self.directories.iter()) {
            if other.len() == path.len() + 1 && other[..path.len()] == *path {
                names.insert(other[path.len()].clone());
            }
        }
        names.into_iter().rev().collect()
    }

    fn listing(&self, path: &[String]) -> Listing {
        if self.is_dir(path) {
            Listing::Children(self.children(path))
        } else {
            Listing::NotDirectory
        }
    }

    fn probe(&self, path: &[String]) -> Probe {
        if self.is_file(path) {
            Probe::File
        } else if self.is_dir(path) {
            Probe::First(self.children(path).pop())
        } else {
            Probe::NotDirectory
        }
    }
}

fn save(store: &Store, disk: &mut Disk, bytes: &[u8]) -> Action {
    let entry = store.locate(bytes);
    let exists = disk.is_file(&entry.path);
    let path = entry.path.clone();
    let action = Store::save_at(entry, bytes, exists);
    if action.is_added() {
        disk.write(&path, bytes);
    }
    action
}

fn infer(base: &str, disk: &Disk) -> Result<Option<Vec<usize>>, Error> {
    let mut inference = Store::infer_prefix_part_lengths(base);
    loop {
        let probe = disk.probe(inference.path());
        match inference.step(probe)? {
            Step::Done(lengths) => return Ok(lengths),
            Step::Look(path) => assert_eq!(&path, inference.path()),
        }
    }
}

fn walk(store: &Store, disk: &Disk) -> Vec<Result<Entry, IterationError>> {
    let mut entries = store.entries();
    let mut found = vec![];
    while let Some(visit) = entries.next() {
        match visit {
            Visit::File(path) => {
                let is_file = disk.is_file(&path);
                found.push(Entries::path_to_entry(path, is_file));
            }
            Visit::Directory(path) => {
                let listing = disk.listing(&path);
                if let Err(error) = entries.descend(path, listing) {
                    found.push(Err(error));
                }
            }
        }
    }
    found
}

fn strings(names: &[&str]) -> Vec<String> {
    names.iter().map(|name| name.to_string()).collect()
}

fn test_save(prefix_part_lengths: Vec<usize>) -> Vec<Entry> {
    let base = "store";
    let mut disk = Disk::new(base);

    let store = Store::new(base)
        .with_prefix_part_lengths(&prefix_part_lengths)
        .unwrap();
    let minimal_jpg_action = save(&store, &mut disk, &minimal_jpg_bytes());
    let minimal_png_action = save(&store, &mut disk, &minimal_png_bytes());
    let empty_action = save(&store, &mut disk, &empty_bytes());
    let text_action = save(&store, &mut disk, &text_bytes());

    assert!(minimal_jpg_action.is_added());
    assert!(minimal_png_action.is_added());
    assert!(empty_action.is_added());
    assert!(text_action.is_added());

    assert_eq!(minimal_jpg_action.image_type(), Some(imghdr::Type::Jpeg));
    assert_eq!(minimal_png_action.image_type(), Some(imghdr::Type::Png));
    assert_eq!(empty_action.image_type(), None);
    assert_eq!(text_action.image_type(), None);

    let repeat_minimal_jpg_action = save(&store, &mut disk, &minimal_jpg_bytes());
    let repeat_minimal_png_action = save(&store, &mut disk, &minimal_png_bytes());
    let repeat_empty_action = save(&store, &mut disk, &empty_bytes());
    let repeat_text_action = save(&store, &mut disk, &text_bytes());

    assert!(!repeat_minimal_jpg_action.is_added());
    assert!(!repeat_minimal_png_action.is_added());
    assert!(!repeat_empty_action.is_added());
    assert!(!repeat_text_action.is_added());

    assert_eq!(repeat_minimal_jpg_action.entry(), minimal_jpg_action.entry());
    assert_eq!(repeat_empty_action.entry(), empty_action.entry());

    let inferred_prefix_parts_length = infer(base, &disk).unwrap();

    assert_eq!(inferred_prefix_parts_length, Some(prefix_part_lengths));

    let entries = walk(&store, &disk)
        .into_iter()
        .collect::<Result<Vec<_>, _>>()
        .unwrap();
    let digests = entries
        .iter()
        .map(|entry| entry.digest.0)
        .collect::<Vec<_>>();

    let expected_digests = vec![
        minimal_jpg_digest(),
        text_digest(),
        empty_digest(),
        minimal_png_digest(),
    ];

    assert_eq!(entries.len(), 4);
    assert_eq!(digests, expected_digests);

    for entry in &entries {
        assert_eq!(store.path(entry.digest), entry.path);
    }

    entries
}

#[test]
fn test_save_empty() {
    test_save(vec![]);
}

#[test]
fn test_save_1() {
    test_save(vec![1]);
}

#[test]
fn test_save_2_2() {
    test_save(vec![2, 2]);
}

#[test]
fn test_save_16_3() {
    test_save(vec![16, 3]);
}

#[test]
fn test_save_19_13() {
    test_save(vec![19, 13]);
}

#[test]
fn empty_bytes_go_to_their_place() {
    let store = Store::new("root").with_prefix_part_lengths(&[2, 2]).unwrap();
    let mut disk = Disk::new("root");

    let first = save(&store, &mut disk, &[]);

    let expected = strings(&["root", "d4", "1d", "d41d8cd98f00b204e9800998ecf8427e"]);
    assert_eq!(
        first,
        Action::Added {
            entry: Entry { path: expected.clone(), digest: Digest(empty_digest()) },
            image_type: ImageType::empty(),
        }
    );
    assert_eq!(first.image_type(), None);

    let second = save(&store, &mut disk, &[]);

    assert_eq!(
        second,
        Action::Found { entry: Entry { path: expected, digest: Digest(empty_digest()) } }
    );
}

#[test]
fn paths_follow_the_lengths() {
    let digest = Digest(text_digest());
    let name = "ab07acbb1e496801937adfa772424bf7";

    let flat = Store::new("b");
    assert_eq!(flat.path(digest), strings(&["b", name]));

    let one = Store::new("b").with_prefix_part_lengths(&[1]).unwrap();
    assert_eq!(one.path(digest), strings(&["b", "a", name]));

    let uneven = Store::new("b").with_prefix_part_lengths(&[3, 1, 2]).unwrap();
    assert_eq!(uneven.path(digest), strings(&["b", "ab0", "7", "ac", name]));

    let whole = Store::new("b").with_prefix_part_lengths(&[32]).unwrap();
    assert_eq!(whole.path(digest), strings(&["b", name, name]));
}

#[test]
fn lengths_are_checked_when_a_store_is_set_up() {
    for valid in [vec![], vec![1], vec![32], vec![16, 16], vec![1; 32]] {
        let store = Store::new("b").with_prefix_part_lengths(&valid).unwrap();
        assert_eq!(store.base, "b");
        assert_eq!(store.prefix_part_lengths, valid);
    }
    for invalid in [vec![0], vec![33], vec![16, 17], vec![2, 0, 2], vec![usize::MAX, 2], vec![1; 33]]
    {
        match Store::new("b").with_prefix_part_lengths(&invalid) {
            Err(InitializationError::InvalidPrefixPartLengths(lengths)) => {
                assert_eq!(lengths, invalid)
            }
            Ok(_) => panic!("accepted {invalid:?}"),
        }
    }
}

#[test]
fn a_blob_of_any_length_is_saved() {
    let store = Store::new("root").with_prefix_part_lengths(&[2, 2]).unwrap();
    let mut disk = Disk::new("root");
    let blobs: [&[u8]; 8] = [
        b"1234567",
        b"12345678",
        b"123456789",
        b"1234567890",
        b"RIFF567890",
        b"RIFF5678901",
        b"GIF89a78",
        b"\x89PNG\r\n\x1a\n",
    ];
    let kinds = [
        None,
        None,
        None,
        None,
        None,
        None,
        Some(imghdr::Type::Gif),
        Some(imghdr::Type::Png),
    ];
    for (bytes, kind) in blobs.iter().zip(kinds) {
        let first = save(&store, &mut disk, bytes);
        let entry =
            Entry { path: store.path(Digest::compute(bytes)), digest: Digest::compute(bytes) };
        assert_eq!(
            first,
            Action::Added { entry: entry.clone(), image_type: ImageType::new(kind) }
        );
        let second = save(&store, &mut disk, bytes);
        assert_eq!(second, Action::Found { entry });
    }
    assert_eq!(walk(&store, &disk).len(), 8);
}

#[test]
fn an_empty_store_shows_no_lengths() {
    let disk = Disk::new("store");
    assert_eq!(infer("store", &disk).unwrap(), None);

    let mut with_directories = Disk::new("store");
    with_directories.create_dir_all(&strings(&["store", "ab", "cd"]));
    assert_eq!(infer("store", &with_directories).unwrap(), None);
}

#[test]
fn lengths_are_inferred_from_the_first_file() {
    let mut disk = Disk::new("store");
    disk.write(&strings(&["store", "abc", "d", "abcd"]), b"");
    assert_eq!(infer("store", &disk).unwrap(), Some(vec![3, 1]));
}

#[test]
fn the_base_of_a_store_must_be_a_directory() {
    let disk = Disk::new("store");
    match infer("elsewhere", &disk) {
        Err(Error::ExpectedDirectory(path)) => assert_eq!(path, strings(&["elsewhere"])),
        other => panic!("{other:?}"),
    }
    let mut file = Disk::new("store");
    file.write(&strings(&["store", "file"]), b"");
    let mut inference = Store::infer_prefix_part_lengths("store");
    assert!(matches!(inference.step(Probe::File), Err(Error::ExpectedDirectory(_))));
}

#[test]
fn a_failed_look_ends_the_inference() {
    let mut inference = Store::infer_prefix_part_lengths("store");
    let failure = std::io::Error::other("unreadable");
    match inference.step(Probe::Failed(failure)) {
        Err(Error::Io(error)) => assert_eq!(error.to_string(), "unreadable"),
        other => panic!("{other:?}"),
    }
}

fn walk_of(paths: &[&[&str]], lengths: &[usize]) -> Vec<Result<Entry, IterationError>> {
    let mut disk = Disk::new("s");
    for path in paths {
        disk.write(&strings(path), b"");
    }
    let store = Store::new("s").with_prefix_part_lengths(lengths).unwrap();
    walk(&store, &disk)
}

const A: &str = "aa000000000000000000000000000000";
const B: &str = "bb000000000000000000000000000000";
const C: &str = "cc000000000000000000000000000000";

#[test]
fn entries_come_in_ascending_order() {
    let found = walk_of(&[&["s", "cc", C], &["s", "aa", A], &["s", "bb", B]], &[2]);
    let names = found
        .into_iter()
        .map(|entry| entry.unwrap().path)
        .collect::<Vec<_>>();
    assert_eq!(
        names,
        vec![strings(&["s", "aa", A]), strings(&["s", "bb", B]), strings(&["s", "cc", C])]
    );
}

#[test]
fn a_directory_name_of_another_length_is_reported() {
    let found = walk_of(&[&["s", "aa", A], &["s", "bbb", B], &["s", "cc", C]], &[2]);
    assert_eq!(found.len(), 1);
    match &found[0] {
        Err(IterationError::InvalidFileName(path)) => assert_eq!(path, &strings(&["s", "bbb"])),
        other => panic!("{other:?}"),
    }
}

#[test]
fn a_directory_name_that_is_not_lowercase_hex_is_reported() {
    for name in ["zz", "AA", "a-"] {
        let found = walk_of(&[&["s", "aa", A], &["s", name, B]], &[2]);
        assert_eq!(found.len(), 1);
        match &found[0] {
            Err(IterationError::InvalidFileName(path)) => assert_eq!(path, &strings(&["s", name])),
            other => panic!("{other:?}"),
        }
    }
}

#[test]
fn the_greatest_invalid_name_is_the_one_reported() {
    let found = walk_of(&[&["s", "aaa", A], &["s", "bb", B], &["s", "ccc", C]], &[2]);
    assert_eq!(found.len(), 1);
    match &found[0] {
        Err(IterationError::InvalidFileName(path)) => assert_eq!(path, &strings(&["s", "ccc"])),
        other => panic!("{other:?}"),
    }
}

#[test]
fn an_error_in_one_directory_leaves_the_others_to_be_walked() {
    let found = walk_of(
        &[&["s", "aa", "x", A], &["s", "bb", "b", B], &["s", "cc", "c", C]],
        &[2, 1],
    );
    assert_eq!(found.len(), 3);
    match &found[0] {
        Err(IterationError::InvalidFileName(path)) => {
            assert_eq!(path, &strings(&["s", "aa", "x"]))
        }
        other => panic!("{other:?}"),
    }
    assert_eq!(found[1].as_ref().unwrap().path, strings(&["s", "bb", "b", B]));
    assert_eq!(found[2].as_ref().unwrap().path, strings(&["s", "cc", "c", C]));
}

#[test]
fn a_file_where_a_directory_belongs_is_reported() {
    let found = walk_of(&[&["s", "aa"], &["s", "bb", B]], &[2]);
    assert_eq!(found.len(), 2);
    match &found[0] {
        Err(IterationError::ExpectedDirectory(path)) => assert_eq!(path, &strings(&["s", "aa"])),
        other => panic!("{other:?}"),
    }
    assert_eq!(found[1].as_ref().unwrap().digest, Digest::from_hex(B.as_bytes()).unwrap());
}

#[test]
fn a_directory_where_a_file_belongs_is_reported() {
    let found = walk_of(&[&["s", "aa", A, "deeper"], &["s", "bb", B]], &[2]);
    assert_eq!(found.len(), 2);
    match &found[0] {
        Err(IterationError::ExpectedFile(path)) => assert_eq!(path, &strings(&["s", "aa", A])),
        other => panic!("{other:?}"),
    }
    assert!(found[1].is_ok());
}

#[test]
fn a_file_name_that_is_no_digest_is_reported() {
    let found = walk_of(&[&["s", "readme.txt"], &["s", &A[..30]], &["s", &A[..31]], &["s", A]], &[]);
    assert_eq!(found.len(), 4);
    assert!(matches!(
        &found[0],
        Err(IterationError::Hex(hex::FromHexError::InvalidStringLength))
    ));
    assert!(matches!(&found[1], Err(IterationError::Hex(hex::FromHexError::OddLength))));
    assert_eq!(found[2].as_ref().unwrap().path, strings(&["s", A]));
    match &found[3] {
        Err(IterationError::InvalidFileName(path)) => {
            assert_eq!(path, &strings(&["s", "readme.txt"]))
        }
        other => panic!("{other:?}"),
    }
}

#[test]
fn an_uppercase_file_name_is_not_a_valid_name() {
    let name = A.to_uppercase();
    let found = walk_of(&[&["s", &name]], &[]);
    assert!(matches!(&found[0], Err(IterationError::InvalidFileName(_))));
    assert!(Digest::from_hex(name.as_bytes()).is_ok());
}

#[test]
fn a_directory_that_cannot_be_read_is_reported() {
    let store = Store::new("s");
    let mut entries = store.entries();
    let Some(Visit::Directory(path)) = entries.next() else { panic!("no base") };
    let failure = std::io::Error::other("unreadable");
    match entries.descend(path, Listing::Failed(failure)) {
        Err(IterationError::Io(error)) => assert_eq!(error.to_string(), "unreadable"),
        other => panic!("{other:?}"),
    }
    assert_eq!(entries.next(), None);
}

#[test]
fn the_walk_of_a_missing_base_reports_it() {
    let disk = Disk::new("elsewhere");
    let store = Store::new("s");
    let found = walk(&store, &disk);
    assert_eq!(found.len(), 1);
    assert!(matches!(&found[0], Err(IterationError::ExpectedDirectory(path)) if path == &strings(&["s"])));
}

#[test]
fn levels_go_down_and_up() {
    let store = Store::new("s").with_prefix_part_lengths(&[2, 3]).unwrap();
    let mut entries = store.entries();
    assert!(!entries.is_last());
    assert_eq!(entries.current_prefix_part_length(), None);
    entries.increment_level();
    assert_eq!(entries.current_prefix_part_length(), Some(2));
    entries.increment_level();
    assert_eq!(entries.current_prefix_part_length(), Some(3));
    assert!(!entries.is_last());
    entries.increment_level();
    assert_eq!(entries.current_prefix_part_length(), None);
    assert!(entries.is_last());
    entries.decrement_level();
    assert_eq!(entries.current_prefix_part_length(), Some(3));
    entries.decrement_level();
    entries.decrement_level();
    assert_eq!(entries.current_prefix_part_length(), None);
    entries.decrement_level();
    assert_eq!(entries.current_prefix_part_length(), None);
    entries.increment_level();
    assert_eq!(entries.current_prefix_part_length(), Some(2));
}

#[test]
fn only_lowercase_hexadecimal_characters_are_valid() {
    for byte in 0..=255u8 {
        let expected = byte.is_ascii_digit() || (b'a'..=b'f').contains(&byte);
        assert_eq!(Entries::is_valid_char(byte), expected);
    }
}

#[test]
fn listed_names_are_sorted_whatever_their_order() {
    let path = strings(&["s"]);
    let names = strings(&["b", "a", "ab", "c", "", "aa"]);
    let paths = Entries::path_to_paths(path, Listing::Children(names), None).unwrap();
    let last = paths
        .iter()
        .map(|path| path[1].as_str())
        .collect::<Vec<_>>();
    assert_eq!(last, vec!["c", "b", "ab", "aa", "a", ""]);
}

#[test]
fn changed_bytes_are_told_apart() {
    let store = Store::new("s").with_prefix_part_lengths(&[2]).unwrap();
    let entry = store.locate(b"foo bar baz");
    assert_eq!(entry.digest, Digest(text_digest()));

    assert_eq!(entry.validate(b"foo bar baz"), Ok(()));
    let actual = entry.validate(b"foo bar bat").unwrap_err();
    assert_eq!(actual, Digest::compute(b"foo bar bat"));
    assert_ne!(actual, entry.digest);

    let valid = Entries::validate(entry.clone(), Ok(b"foo bar baz".to_vec())).unwrap();
    assert_eq!(valid, ValidationResult::Valid { entry: entry.clone() });
    let invalid = Entries::validate(entry.clone(), Ok(b"foo bar bat".to_vec())).unwrap();
    assert_eq!(invalid, ValidationResult::Invalid { entry: entry.clone(), actual });

    assert_eq!(
        Entries::validate_fail_fast(entry.clone(), Ok(b"foo bar baz".to_vec())).unwrap(),
        entry
    );
    match Entries::validate_fail_fast(entry.clone(), Ok(b"foo bar bat".to_vec())) {
        Err(Error::UnexpectedDigest { expected, actual: found }) => {
            assert_eq!(expected, entry.digest);
            assert_eq!(found, actual);
        }
        other => panic!("{other:?}"),
    }
    let failure = std::io::Error::other("unreadable");
    assert!(matches!(
        Entries::validate(entry.clone(), Err(failure)),
        Err(IterationError::Io(_))
    ));
    let failure = std::io::Error::other("unreadable");
    assert!(matches!(
        Entries::validate_fail_fast(entry, Err(failure)),
        Err(Error::Iteration(IterationError::Io(_)))
    ));
}
