use image_scraper::digest::Digest;
use image_scraper::image_type::ImageType;
use image_scraper::index::db::{sort_recent_first, Database, Error, Key, Lookup, Value};
use image_scraper::index::timestamp::{
    from_be_bytes, to_be_bytes, DecodeError, EncodeError, Timestamp,
};
use image_scraper::index::{time_of, Entry, Row};
use std::cmp::Ordering;
use std::collections::BTreeMap;

fn digest(byte: u8) -> Digest {
    Digest([byte; 16])
}

fn entry(seconds: i64, byte: u8, kind: imghdr::Type) -> Entry {
    Entry {
        timestamp: Timestamp(seconds),
        digest: digest(byte),
        image_type: ImageType::new(Some(kind)),
    }
}

/// An ordered store of pairs held in memory.
struct Pairs(BTreeMap<Vec<u8>, Vec<u8>>);

impl Pairs {
    fn new() -> Self {
        Self(BTreeMap::new())
    }

    fn put(&mut self, pair: (Vec<u8>, Vec<u8>)) {
        self.0.insert(pair.0, pair.1);
    }

    fn scan_from(&self, start: &[u8]) -> Vec<(Vec<u8>, Vec<u8>)> {
        self.0
            .range(start.to_vec()..)
            .map(|(key, value)| (key.clone(), value.clone()))
            .collect()
    }

    fn scan(&self) -> Vec<(Vec<u8>, Vec<u8>)> {
        self.scan_from(&[])
    }

    fn lookup(&self, url: &str) -> Result<Vec<Row>, Error> {
        Database::lookup(url, &self.scan_from(url.as_bytes()))
    }
}

#[test]
fn a_key_is_the_url_a_zero_byte_and_the_seconds() {
    let key = Key { url: "a/b".to_string(), timestamp: Timestamp(0x0102_0304) };
    assert_eq!(key.to_bytes(), vec![b'a', b'/', b'b', 0, 1, 2, 3, 4]);
    assert_eq!(Key::from_bytes(&key.to_bytes()).unwrap(), key);

    let empty = Key { url: String::new(), timestamp: Timestamp(1) };
    assert_eq!(empty.to_bytes(), vec![0, 0, 0, 0, 1]);
    assert_eq!(Key::from_bytes(&[0, 0, 0, 0, 1]).unwrap(), empty);

    let wide = Key { url: "é".to_string(), timestamp: Timestamp(258) };
    assert_eq!(wide.to_bytes(), vec![0xc3, 0xa9, 0, 0, 0, 1, 2]);
    assert_eq!(Key::from_bytes(&wide.to_bytes()).unwrap(), wide);
}

#[test]
fn seconds_that_do_not_fit_are_stored_as_the_largest_count() {
    let last = Key { url: "u".to_string(), timestamp: Timestamp(u32::MAX as i64) };
    assert_eq!(last.to_bytes(), vec![b'u', 0, 255, 255, 255, 255]);
    for seconds in [u32::MAX as i64 + 1, i64::MAX, -1, i64::MIN] {
        let key = Key { url: "u".to_string(), timestamp: Timestamp(seconds) };
        assert_eq!(key.to_bytes(), last.to_bytes());
        assert_eq!(Timestamp(seconds).clamped(), u32::MAX);
    }
    assert_eq!(Timestamp(0).clamped(), 0);
    assert_eq!(Timestamp(1_700_000_000).clamped(), 1_700_000_000);
}

#[test]
fn a_key_that_is_too_short_or_not_text_is_refused() {
    for bytes in [vec![], vec![0], vec![0, 0, 0, 1]] {
        match Key::from_bytes(&bytes) {
            Err(Error::InvalidKeyBytes(refused)) => assert_eq!(refused, bytes),
            other => panic!("{other:?}"),
        }
    }
    let bytes = vec![0xff, 0xfe, 0, 0, 0, 0, 1];
    match Key::from_bytes(&bytes) {
        Err(Error::InvalidKeyBytes(refused)) => assert_eq!(refused, bytes),
        other => panic!("{other:?}"),
    }
}

#[test]
fn a_key_without_the_zero_byte_after_the_url_is_refused() {
    for bytes in [
        vec![b'a', b'b', 0, 0, 0, 1],
        vec![b'a', 1, 0, 0, 0, 1],
        vec![b'a', 0, 1, 0, 0, 0, 1],
        vec![255, 0, 0, 0, 1],
        vec![b'a', b'b', b'c', b'd', b'e'],
    ] {
        match Key::from_bytes(&bytes) {
            Err(Error::InvalidKeyBytes(refused)) => assert_eq!(refused, bytes),
            other => panic!("{other:?}"),
        }
        assert!(matches!(Database::row(&bytes, &[0; 17]), Err(Error::InvalidKeyBytes(_))));
        let rows = Database::iter(&vec![(bytes.clone(), vec![0; 17])]);
        assert!(matches!(&rows[0], Err(Error::InvalidKeyBytes(_))));
        assert!(matches!(
            Database::lookup("a", &vec![(bytes.clone(), vec![0; 17])]),
            Err(Error::InvalidKeyBytes(_))
        ));
    }
    let key = Key::from_bytes(&[b'a', 0, 0, 0, 0, 9]).unwrap();
    assert_eq!(key, Key { url: "a".to_string(), timestamp: Timestamp(9) });
    let nul = Key::from_bytes(&[b'a', 0, 0, 0, 0, 0, 9]).unwrap();
    assert_eq!(nul, Key { url: "a\0".to_string(), timestamp: Timestamp(9) });
}

#[test]
fn a_value_is_the_digest_and_the_code() {
    let value = Value { digest: [7; 16], image_type: ImageType::new(Some(imghdr::Type::Png)) };
    let mut expected = vec![7; 16];
    expected.push(10);
    assert_eq!(value.to_bytes(), expected);
    assert_eq!(Value::from_bytes(&expected).unwrap(), value);
}

#[test]
fn a_value_is_written_as_bincode_writes_it() {
    let config = bincode::config::standard()
        .with_big_endian()
        .with_fixed_int_encoding();
    for code in 0..=17u8 {
        let image_type = ImageType::from_code(code).unwrap();
        let digest: [u8; 16] = core::array::from_fn(|i| (i as u8).wrapping_mul(17) ^ code);
        let written = bincode::encode_to_vec((digest, code), config).unwrap();
        assert_eq!(Value { digest, image_type }.to_bytes(), written);
        assert_eq!(written.len(), 17);
    }
}

#[test]
fn a_value_that_ends_too_soon_is_refused() {
    for (length, additional) in [(0, 16), (1, 15), (15, 1), (16, 1)] {
        match Value::from_bytes(&vec![1; length]) {
            Err(Error::Decode(DecodeError::UnexpectedEnd { additional: more })) => {
                assert_eq!(more, additional)
            }
            other => panic!("{other:?}"),
        }
    }
}

#[test]
fn a_value_with_an_unassigned_code_is_refused() {
    for code in [18, 19, 255] {
        let mut bytes = vec![1; 16];
        bytes.push(code);
        assert!(matches!(
            Value::from_bytes(&bytes),
            Err(Error::Decode(DecodeError::InvalidImageTypeCode))
        ));
        bytes.push(0);
        assert!(matches!(
            Value::from_bytes(&bytes),
            Err(Error::Decode(DecodeError::InvalidImageTypeCode))
        ));
    }
}

#[test]
fn a_value_that_goes_on_is_refused() {
    let mut bytes = vec![1; 16];
    bytes.push(10);
    bytes.push(0);
    match Value::from_bytes(&bytes) {
        Err(Error::ExtraValueBytes(refused)) => assert_eq!(refused, bytes),
        other => panic!("{other:?}"),
    }
}

#[test]
fn a_success_is_read_back() {
    let written = entry(1_700_000_000, 3, imghdr::Type::Jpeg);
    let (key, value) = Database::add("https://example.com/a.jpg", written);
    assert_eq!(key.len(), "https://example.com/a.jpg".len() + 5);
    assert_eq!(value.len(), 17);
    assert_eq!(
        Database::row(&key, &value).unwrap(),
        ("https://example.com/a.jpg".to_string(), Ok(written))
    );
}

#[test]
fn a_failure_is_sixteen_zero_bytes_and_the_code_zero() {
    let (key, value) = Database::add_failed("u", Timestamp(5));
    assert_eq!(key, vec![b'u', 0, 0, 0, 0, 5]);
    assert_eq!(value, vec![0; 17]);
    assert_eq!(Database::row(&key, &value).unwrap(), ("u".to_string(), Err(Timestamp(5))));
}

#[test]
fn only_the_zero_digest_with_the_code_zero_is_a_failure() {
    let unknown = Value { digest: [1; 16], image_type: ImageType::empty() };
    assert_eq!(
        unknown.outcome(Timestamp(5)),
        Ok(Entry { timestamp: Timestamp(5), digest: digest(1), image_type: ImageType::empty() })
    );
    let zero = Value { digest: [0; 16], image_type: ImageType::new(Some(imghdr::Type::Gif)) };
    assert_eq!(zero.outcome(Timestamp(5)), Ok(entry(5, 0, imghdr::Type::Gif)));
    let failed = Value { digest: [0; 16], image_type: ImageType::empty() };
    assert_eq!(failed.outcome(Timestamp(5)), Err(Timestamp(5)));
}

#[test]
fn a_lookup_gives_the_attempts_most_recent_first() {
    let mut pairs = Pairs::new();
    pairs.put(Database::add("u", entry(20, 2, imghdr::Type::Png)));
    pairs.put(Database::add_failed("u", Timestamp(30)));
    pairs.put(Database::add("u", entry(10, 1, imghdr::Type::Gif)));
    pairs.put(Database::add_failed("u", Timestamp(5)));

    assert_eq!(
        pairs.lookup("u").unwrap(),
        vec![
            Err(Timestamp(30)),
            Ok(entry(20, 2, imghdr::Type::Png)),
            Ok(entry(10, 1, imghdr::Type::Gif)),
            Err(Timestamp(5)),
        ]
    );
}

#[test]
fn a_lookup_of_a_url_never_gives_rows_of_a_longer_one() {
    let mut pairs = Pairs::new();
    pairs.put(Database::add("a", entry(10, 1, imghdr::Type::Gif)));
    pairs.put(Database::add("ab", entry(20, 2, imghdr::Type::Png)));
    pairs.put(Database::add("a", entry(30, 3, imghdr::Type::Bmp)));
    pairs.put(Database::add("abc", entry(40, 4, imghdr::Type::Ico)));
    pairs.put(Database::add("b", entry(50, 5, imghdr::Type::Xbm)));

    assert_eq!(
        pairs.lookup("a").unwrap(),
        vec![Ok(entry(30, 3, imghdr::Type::Bmp)), Ok(entry(10, 1, imghdr::Type::Gif))]
    );
    assert_eq!(pairs.lookup("ab").unwrap(), vec![Ok(entry(20, 2, imghdr::Type::Png))]);
    assert_eq!(pairs.lookup("abc").unwrap(), vec![Ok(entry(40, 4, imghdr::Type::Ico))]);
    assert_eq!(pairs.lookup("b").unwrap(), vec![Ok(entry(50, 5, imghdr::Type::Xbm))]);
    assert_eq!(pairs.lookup("").unwrap(), vec![]);
    assert_eq!(pairs.lookup("aa").unwrap(), vec![]);
    assert_eq!(pairs.lookup("c").unwrap(), vec![]);
}

#[test]
fn the_keys_of_a_url_are_next_to_each_other() {
    let mut pairs = Pairs::new();
    for url in ["a", "a!", "ab", "a\u{1}", "b", "", "aa"] {
        for seconds in [1, 256, 65_536, 16_777_216, 4_000_000_000] {
            pairs.put(Database::add_failed(url, Timestamp(seconds)));
        }
    }
    let urls = Database::iter(&pairs.scan())
        .into_iter()
        .map(|row| row.unwrap())
        .collect::<Vec<_>>();
    assert_eq!(urls.len(), 35);
    for (i, (url, row)) in urls.iter().enumerate() {
        if i > 0 && urls[i - 1].0 == *url {
            assert!(time_of(&urls[i - 1].1).0 < time_of(row).0);
        } else {
            assert!(urls[..i].iter().all(|(earlier, _)| earlier != url));
        }
    }
}

#[test]
fn a_scan_ends_at_the_first_pair_of_another_url() {
    let scan = vec![
        Database::add("a", entry(10, 1, imghdr::Type::Gif)),
        Database::add("b", entry(20, 2, imghdr::Type::Png)),
        Database::add("a", entry(30, 3, imghdr::Type::Bmp)),
        (vec![1], vec![2]),
    ];
    assert_eq!(Database::lookup("a", &scan).unwrap(), vec![Ok(entry(10, 1, imghdr::Type::Gif))]);
}

#[test]
fn the_value_of_another_url_is_not_read() {
    let (key, _) = Database::add_failed("b", Timestamp(1));
    let scan = vec![Database::add_failed("a", Timestamp(1)), (key, vec![1, 2, 3])];
    assert_eq!(Database::lookup("a", &scan).unwrap(), vec![Err(Timestamp(1))]);
}

#[test]
fn a_pair_that_cannot_be_read_fails_the_lookup() {
    let (key, _) = Database::add_failed("a", Timestamp(2));
    let scan = vec![Database::add_failed("a", Timestamp(1)), (key, vec![0; 18])];
    match Database::lookup("a", &scan) {
        Err(Error::ExtraValueBytes(bytes)) => assert_eq!(bytes, vec![0; 18]),
        other => panic!("{other:?}"),
    }
    let scan = vec![(vec![b'a'], vec![0; 17])];
    assert!(matches!(Database::lookup("a", &scan), Err(Error::InvalidKeyBytes(_))));
}

#[test]
fn a_full_scan_reports_each_pair_by_itself() {
    let scan = vec![
        Database::add("a", entry(10, 1, imghdr::Type::Gif)),
        (vec![1, 2], vec![0; 17]),
        Database::add_failed("b", Timestamp(20)),
        (Database::add_failed("c", Timestamp(1)).0, vec![0; 3]),
    ];
    let rows = Database::iter(&scan);
    assert_eq!(rows.len(), 4);
    assert_eq!(rows[0].as_ref().unwrap(), &("a".to_string(), Ok(entry(10, 1, imghdr::Type::Gif))));
    assert!(matches!(&rows[1], Err(Error::InvalidKeyBytes(bytes)) if bytes == &vec![1, 2]));
    assert_eq!(rows[2].as_ref().unwrap(), &("b".to_string(), Err(Timestamp(20))));
    assert!(matches!(
        &rows[3],
        Err(Error::Decode(DecodeError::UnexpectedEnd { additional: 13 }))
    ));
}

#[test]
fn a_lookup_can_be_fed_pair_by_pair() {
    let mut lookup = Lookup::new("a");
    assert_eq!(lookup.start(), b"a".to_vec());
    let (key, value) = Database::add_failed("a", Timestamp(1));
    assert!(lookup.push(&key, &value).unwrap());
    let (key, value) = Database::add("a", entry(2, 2, imghdr::Type::Png));
    assert!(lookup.push(&key, &value).unwrap());
    assert!(lookup.push(&key, &[1]).is_err());
    let (key, value) = Database::add_failed("ab", Timestamp(1));
    assert!(!lookup.push(&key, &value).unwrap());
    assert_eq!(lookup.finish(), vec![Ok(entry(2, 2, imghdr::Type::Png)), Err(Timestamp(1))]);
}

#[test]
fn rows_of_the_same_second_keep_their_order() {
    let rows = vec![
        Err(Timestamp(1)),
        Ok(entry(3, 1, imghdr::Type::Gif)),
        Ok(entry(2, 2, imghdr::Type::Gif)),
        Err(Timestamp(3)),
        Ok(entry(3, 3, imghdr::Type::Gif)),
    ];
    assert_eq!(
        sort_recent_first(rows),
        vec![
            Ok(entry(3, 1, imghdr::Type::Gif)),
            Err(Timestamp(3)),
            Ok(entry(3, 3, imghdr::Type::Gif)),
            Ok(entry(2, 2, imghdr::Type::Gif)),
            Err(Timestamp(1)),
        ]
    );
}

#[test]
fn seconds_are_four_big_endian_bytes() {
    assert_eq!(to_be_bytes(0x0102_0304), [1, 2, 3, 4]);
    assert_eq!(to_be_bytes(0), [0, 0, 0, 0]);
    assert_eq!(to_be_bytes(u32::MAX), [255; 4]);
    assert_eq!(from_be_bytes(&[9, 1, 2, 3, 4], 1), 0x0102_0304);
    for value in [0, 1, 255, 256, 65_535, 65_536, 1_700_000_000, u32::MAX] {
        assert_eq!(to_be_bytes(value), value.to_be_bytes());
        assert_eq!(from_be_bytes(&value.to_be_bytes(), 0), value);
    }
}

#[test]
fn a_time_is_written_only_where_four_bytes_can_count_it() {
    assert_eq!(Timestamp(258).encode(), Ok([0, 0, 1, 2]));
    assert_eq!(Timestamp(u32::MAX as i64).encode(), Ok([255; 4]));
    assert_eq!(Timestamp(-1).encode(), Err(EncodeError::InvalidEpochSecond));
    assert_eq!(Timestamp(u32::MAX as i64 + 1).encode(), Err(EncodeError::InvalidEpochSecond));
    assert_eq!(Timestamp::decode(&[0, 0, 1, 2, 9]), Ok(Timestamp(258)));
    assert_eq!(
        Timestamp::decode(&[0, 0, 1]),
        Err(DecodeError::UnexpectedEnd { additional: 1 })
    );
}

#[test]
fn entries_compare_by_time_then_digest_then_format() {
    let recent = entry(20, 9, imghdr::Type::Ico);
    let old = entry(10, 1, imghdr::Type::Gif);
    assert_eq!(recent.cmp(&old), Ordering::Less);
    assert_eq!(old.cmp(&recent), Ordering::Greater);
    assert_eq!(old.cmp(&old), Ordering::Equal);

    let lesser = entry(10, 1, imghdr::Type::Ico);
    let greater = entry(10, 2, imghdr::Type::Gif);
    assert_eq!(lesser.cmp(&greater), Ordering::Less);
    assert_eq!(greater.cmp(&lesser), Ordering::Greater);

    assert_eq!(
        entry(10, 1, imghdr::Type::Gif).cmp(&entry(10, 1, imghdr::Type::Tiff)),
        Ordering::Less
    );
    assert_eq!(
        entry(10, 1, imghdr::Type::Ico).cmp(&entry(10, 1, imghdr::Type::Bgp)),
        Ordering::Greater
    );
}

#[test]
fn formats_compare_as_their_derived_order_does() {
    let all = (0..=17u8)
        .map(|code| ImageType::from_code(code).unwrap())
        .collect::<Vec<_>>();
    for a in &all {
        for b in &all {
            assert_eq!(a.rank().cmp(&b.rank()), a.cmp(b));
            assert_eq!(a.rank().cmp(&b.rank()), a.value().cmp(&b.value()));
        }
    }
}
