use image_scraper::cli::{download_record, dump_line, DownloadLogEntry, DownloadStatus, Import};
use image_scraper::digest::Digest;
use image_scraper::image_type::ImageType;
use image_scraper::index::timestamp::Timestamp;
use image_scraper::index::Entry;
use image_scraper::store::Store;
use image_scraper::text::{decimal, signed_decimal};

fn log_entry(status: DownloadStatus, seconds: i64, byte: u8, kind: Option<imghdr::Type>, url: &str) -> DownloadLogEntry {
    DownloadLogEntry {
        status,
        timestamp: Timestamp(seconds),
        digest: [byte; 16],
        image_type: ImageType::new(kind),
        url: url.to_string(),
    }
}

fn row(seconds: i64, byte: u8, kind: imghdr::Type, url: &str) -> (String, Entry) {
    (
        url.to_string(),
        Entry {
            timestamp: Timestamp(seconds),
            digest: Digest([byte; 16]),
            image_type: ImageType::new(Some(kind)),
        },
    )
}

#[test]
fn statuses_are_written_as_letters() {
    assert_eq!(DownloadStatus::Added.as_str(), "A");
    assert_eq!(DownloadStatus::Found.as_str(), "F");
    assert_eq!(DownloadStatus::from_str("A"), Some(DownloadStatus::Added));
    assert_eq!(DownloadStatus::from_str("F"), Some(DownloadStatus::Found));
    for other in ["", "a", "E", "AF", "Added"] {
        assert_eq!(DownloadStatus::from_str(other), None);
    }
}

#[test]
fn numbers_are_written_in_decimal() {
    for value in [0u64, 1, 9, 10, 11, 99, 100, 404, 65_535, 1_700_000_000, u64::MAX] {
        assert_eq!(decimal(value), value.to_string());
    }
    for value in [0i64, 1, -1, 10, -10, 1_700_000_000, -62_135_596_800, i64::MAX, i64::MIN] {
        assert_eq!(signed_decimal(value), value.to_string());
    }
}

#[test]
fn a_download_is_recorded_in_four_fields() {
    let store = Store::new("blobs");
    let png = b"\x89PNG\r\n\x1a\n rest";
    let name = Digest::compute(png).to_hex();

    let added = Ok(store.save(png, false));
    assert_eq!(download_record(&added, "http://a/b.png"), vec!["A", &name, "png", "http://a/b.png"]);

    let found = Ok(store.save(png, true));
    assert_eq!(download_record(&found, "http://a/b.png"), vec!["F", &name, "", "http://a/b.png"]);

    let unknown = Ok(store.save(b"", false));
    assert_eq!(
        download_record(&unknown, "u"),
        vec!["A", "d41d8cd98f00b204e9800998ecf8427e", "", "u"]
    );

    assert_eq!(download_record(&Err(404), "http://a/b.png"), vec!["E", "404", "", ""]);
    assert_eq!(download_record(&Err(0), "u"), vec!["E", "0", "", ""]);
}

#[test]
fn an_index_dump_writes_one_line_for_each_attempt() {
    let success = Ok(row(1_700_000_000, 0xab, imghdr::Type::Jpeg, "").1);
    assert_eq!(
        dump_line("http://a/b", &success),
        "S,http://a/b,1700000000,jpeg,abababababababababababababababab"
    );
    assert_eq!(dump_line("http://a/b", &Err(Timestamp(5))), "E,http://a/b,5,,");
    assert_eq!(dump_line("", &Err(Timestamp(-5))), "E,,-5,,");
}

#[test]
fn added_records_are_indexed_at_once() {
    let mut import = Import::new();
    assert_eq!(
        import.record(log_entry(DownloadStatus::Added, 1, 1, Some(imghdr::Type::Png), "a")),
        Some(row(1, 1, imghdr::Type::Png, "a"))
    );
    assert_eq!(import.record(log_entry(DownloadStatus::Added, 2, 2, None, "b")), None);
    let (late, lost) = import.finish();
    assert_eq!(late, vec![]);
    assert_eq!(lost, vec![]);
}

#[test]
fn found_records_take_the_type_that_an_added_record_told() {
    let mut import = Import::new();
    assert_eq!(import.record(log_entry(DownloadStatus::Found, 1, 7, None, "early")), None);
    assert_eq!(
        import.record(log_entry(DownloadStatus::Added, 2, 7, Some(imghdr::Type::Gif), "a")),
        Some(row(2, 7, imghdr::Type::Gif, "a"))
    );
    assert_eq!(
        import.record(log_entry(DownloadStatus::Found, 3, 7, Some(imghdr::Type::Png), "late")),
        Some(row(3, 7, imghdr::Type::Gif, "late"))
    );
    assert_eq!(import.record(log_entry(DownloadStatus::Found, 4, 8, None, "never")), None);
    assert_eq!(import.record(log_entry(DownloadStatus::Found, 5, 7, None, "later")), Some(row(5, 7, imghdr::Type::Gif, "later")));

    let (late, lost) = import.finish();
    assert_eq!(late, vec![row(1, 7, imghdr::Type::Gif, "early")]);
    assert_eq!(lost, vec![log_entry(DownloadStatus::Found, 4, 8, None, "never")]);
}

#[test]
fn the_last_type_told_for_a_digest_is_the_one_that_counts() {
    let mut import = Import::new();
    import.record(log_entry(DownloadStatus::Added, 1, 7, Some(imghdr::Type::Gif), "a"));
    import.record(log_entry(DownloadStatus::Added, 2, 7, Some(imghdr::Type::Png), "b"));
    import.record(log_entry(DownloadStatus::Added, 3, 8, Some(imghdr::Type::Bmp), "c"));
    assert_eq!(
        import.record(log_entry(DownloadStatus::Found, 4, 7, None, "d")),
        Some(row(4, 7, imghdr::Type::Png, "d"))
    );
    assert_eq!(
        import.record(log_entry(DownloadStatus::Found, 5, 8, None, "e")),
        Some(row(5, 8, imghdr::Type::Bmp, "e"))
    );
}

#[test]
fn a_record_can_be_copied() {
    let record = log_entry(DownloadStatus::Found, 5, 8, Some(imghdr::Type::Xbm), "e");
    assert_eq!(record.copy(), record);
}
