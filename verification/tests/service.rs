use base64::Engine;
use image_scraper::client::{Client, Error as ClientError};
use image_scraper::digest::Digest;
use image_scraper::image_type::ImageType;
use image_scraper::index::db::Error as IndexError;
use image_scraper::index::timestamp::Timestamp;
use image_scraper::index::Entry;
use image_scraper::manager::worker::{Shutdown, Signal};
use image_scraper::manager::{ImageStatus, Manager, UrlConfig, UrlStyle};
use image_scraper::service::{
    decode_url, encode_url, fetched, map_url, map_urls, request_image, static_image,
    ChannelError, MapUrlsError, Request, RequestImageError, StaticImageError,
};
use image_scraper::store::{Action, Store};

const EMPTY: &str = "d41d8cd98f00b204e9800998ecf8427e";

fn manager() -> Manager {
    let config = UrlConfig::new(false, "localhost:3000".to_string(), "/".to_string());
    let store = Store::new("blobs").with_prefix_part_lengths(&[2, 2]).unwrap();
    Manager::new(config, store, 16, 500)
}

fn entry(seconds: i64, kind: Option<imghdr::Type>) -> Entry {
    Entry {
        timestamp: Timestamp(seconds),
        digest: Digest::from_hex(EMPTY.as_bytes()).unwrap(),
        image_type: ImageType::new(kind),
    }
}

#[test]
fn urls_are_written_as_tokens_and_read_back() {
    for (url, token) in [
        ("", ""),
        ("a", "YQ"),
        ("ab", "YWI"),
        ("abc", "YWJj"),
        ("http", "aHR0cA"),
        ("https://example.com/a.png?x=1&y=~", "aHR0cHM6Ly9leGFtcGxlLmNvbS9hLnBuZz94PTEmeT1-"),
        ("\u{3ff}\u{3ff}", "z7_Pvw"),
        ("é>", "w6k-"),
    ] {
        assert_eq!(encode_url(url), Some(token.to_string()));
        assert_eq!(decode_url(token).unwrap(), url);
    }
}

#[test]
fn tokens_are_written_as_base64_writes_them() {
    let engine = base64::engine::general_purpose::URL_SAFE_NO_PAD;
    for length in 0..70usize {
        let bytes = (0..length)
            .map(|i| (i * 37 + length * 11) as u8)
            .collect::<Vec<u8>>();
        let text = bytes.iter().map(|byte| char::from(*byte)).collect::<String>();
        assert_eq!(encode_url(&text), Some(engine.encode(text.as_bytes())));
    }
}

#[test]
fn a_token_that_stands_for_no_bytes_is_refused() {
    for token in ["a", "YQ==", "YQ=", "Y Q", "YR", "YWJ", "aHR0c+", "aHR0c/", "é", "YWJjZ"] {
        match decode_url(token) {
            Err(RequestImageError::InvalidFormat(text)) => assert_eq!(text, token),
            other => panic!("{token}: {other:?}"),
        }
    }
}

#[test]
fn a_token_that_stands_for_no_text_is_refused() {
    match decode_url("__4") {
        Err(RequestImageError::InvalidUtf8(bytes)) => assert_eq!(bytes, vec![0xff, 0xfe]),
        other => panic!("{other:?}"),
    }
}

#[test]
fn a_static_name_is_a_digest_and_an_extension() {
    let digest = Digest::from_hex(EMPTY.as_bytes()).unwrap();
    assert_eq!(static_image(&format!("{EMPTY}.png")).unwrap(), (digest, "image/png"));
    assert_eq!(static_image(&format!("{EMPTY}.jpeg")).unwrap(), (digest, "image/jpeg"));
    assert_eq!(static_image(&format!("{EMPTY}.ico")).unwrap(), (digest, "image/x-icon"));
    assert_eq!(
        static_image(&format!("{}.gif", EMPTY.to_uppercase())).unwrap(),
        (digest, "image/gif")
    );
}

#[test]
fn a_static_name_must_have_one_dot() {
    for name in ["", EMPTY, "a.b.c", "..", &format!("{EMPTY}.png.gz"), &format!(".{EMPTY}.png")] {
        match static_image(name) {
            Err(StaticImageError::InvalidFormat(text)) => assert_eq!(text, name),
            other => panic!("{name}: {other:?}"),
        }
    }
}

#[test]
fn a_static_name_must_start_with_a_digest() {
    for start in ["", "d41d", &EMPTY[1..], &format!("{EMPTY}0"), "z41d8cd98f00b204e9800998ecf8427e", "é"] {
        match static_image(&format!("{start}.png")) {
            Err(StaticImageError::InvalidDigest(text)) => assert_eq!(text, start),
            other => panic!("{start}: {other:?}"),
        }
    }
}

#[test]
fn a_static_name_must_end_with_a_format_that_is_served() {
    for extension in ["", "jpg", "PNG", "bgp", "pbm", "xbm", "é"] {
        match static_image(&format!("{EMPTY}.{extension}")) {
            Err(StaticImageError::InvalidExtension(text)) => assert_eq!(text, extension),
            other => panic!("{extension}: {other:?}"),
        }
    }
}

#[test]
fn a_request_is_answered_from_the_index() {
    assert_eq!(
        request_image("u", ImageStatus::Downloaded { entry: entry(1, Some(imghdr::Type::Png)) })
            .map_err(|error| error.status_code()),
        Ok(Request::Redirect(format!("/static/{EMPTY}.png")))
    );
    assert_eq!(
        request_image("u", ImageStatus::Downloading).map_err(|error| error.status_code()),
        Ok(Request::Fetch)
    );
    match request_image("u", ImageStatus::Failed { timestamp: Timestamp(7) }) {
        Err(RequestImageError::DownloadFailed(url, timestamp)) => {
            assert_eq!(url, "u");
            assert_eq!(timestamp, Timestamp(7));
        }
        other => panic!("{other:?}"),
    }
}

#[test]
fn a_fetched_blob_is_recorded_with_its_type() {
    let store = Store::new("blobs");
    let png = b"\x89PNG\r\n\x1a\n rest";
    let added = store.save(png, false);
    let (mime, recorded) = fetched(&added, Timestamp(99)).unwrap();
    assert_eq!(mime, "image/png");
    assert_eq!(
        recorded,
        Entry {
            timestamp: Timestamp(99),
            digest: Digest::compute(png),
            image_type: ImageType::new(Some(imghdr::Type::Png)),
        }
    );
}

#[test]
fn a_fetched_blob_without_a_media_type_is_refused() {
    let store = Store::new("blobs");
    let found = store.save(b"\x89PNG\r\n\x1a\n rest", true);
    assert!(matches!(
        fetched(&found, Timestamp(1)),
        Err(RequestImageError::InvalidImageType(kind)) if kind == ImageType::empty()
    ));
    let text = store.save(b"foo bar baz", false);
    assert!(matches!(
        fetched(&text, Timestamp(1)),
        Err(RequestImageError::InvalidImageType(kind)) if kind == ImageType::empty()
    ));
    let pbm = store.save(b"P1 000000000", false);
    assert!(matches!(
        fetched(&pbm, Timestamp(1)),
        Err(RequestImageError::InvalidImageType(kind)) if kind.value() == Some(imghdr::Type::Pbm)
    ));
}

#[test]
fn urls_are_mapped_by_their_status() {
    let manager = manager();
    let downloaded = ImageStatus::Downloaded { entry: entry(1, Some(imghdr::Type::Gif)) };
    assert_eq!(
        map_url(&manager, "http", downloaded, None),
        Some(format!("http://localhost:3000/static/{EMPTY}.gif"))
    );
    assert_eq!(
        map_url(&manager, "http", downloaded, Some(UrlStyle::Relative)),
        Some(format!("static/{EMPTY}.gif"))
    );
    assert_eq!(
        map_url(&manager, "http", ImageStatus::Downloading, None),
        Some("http://localhost:3000/request/aHR0cA".to_string())
    );
    assert_eq!(
        map_url(&manager, "http", ImageStatus::Downloading, Some(UrlStyle::Absolute)),
        Some("/request/aHR0cA".to_string())
    );
    assert_eq!(
        map_url(&manager, "http", ImageStatus::Failed { timestamp: Timestamp(1) }, None),
        None
    );
    let unknown = ImageStatus::Downloaded { entry: entry(1, None) };
    assert_eq!(
        map_url(&manager, "http", unknown, Some(UrlStyle::Absolute)),
        Some(format!("/static/{EMPTY}"))
    );

    let urls = vec![
        ("a".to_string(), ImageStatus::Downloading),
        ("b".to_string(), ImageStatus::Failed { timestamp: Timestamp(1) }),
        ("c".to_string(), downloaded),
    ];
    assert_eq!(
        map_urls(&manager, &urls, Some(UrlStyle::Relative)),
        vec![Some("request/YQ".to_string()), None, Some(format!("static/{EMPTY}.gif"))]
    );
}

#[test]
fn errors_are_answered_with_their_status() {
    let digest = Digest([0; 16]);
    assert_eq!(StaticImageError::InvalidFormat(String::new()).status_code(), 400);
    assert_eq!(StaticImageError::InvalidDigest(String::new()).status_code(), 400);
    assert_eq!(StaticImageError::InvalidExtension(String::new()).status_code(), 400);
    assert_eq!(StaticImageError::ImageNotFound(digest).status_code(), 400);
    assert_eq!(
        StaticImageError::ImageIo(digest, std::io::Error::other("gone")).status_code(),
        500
    );

    assert_eq!(RequestImageError::InvalidFormat(String::new()).status_code(), 400);
    assert_eq!(RequestImageError::InvalidUtf8(vec![]).status_code(), 400);
    assert_eq!(RequestImageError::DownloadFailed(String::new(), Timestamp(0)).status_code(), 400);
    assert_eq!(RequestImageError::InvalidImageType(ImageType::empty()).status_code(), 400);
    assert_eq!(RequestImageError::UnexpectedStatus(404).status_code(), 404);
    assert_eq!(RequestImageError::UnexpectedStatus(503).status_code(), 503);
    assert_eq!(RequestImageError::Index(IndexError::InvalidKeyBytes(vec![])).status_code(), 500);
    assert_eq!(RequestImageError::DownloadQueue(ChannelError::Send).status_code(), 500);
    assert_eq!(RequestImageError::DownloadQueue(ChannelError::Receive).status_code(), 500);
    assert_eq!(RequestImageError::Http(ClientError::Http).status_code(), 500);

    assert_eq!(MapUrlsError::Index(IndexError::ExtraValueBytes(vec![])).status_code(), 500);
}

#[test]
fn only_the_status_200_carries_a_blob() {
    let store = Store::new("blobs").with_prefix_part_lengths(&[2, 2]).unwrap();
    let client = Client::new(store);
    assert_eq!(client.store().prefix_part_lengths, vec![2, 2]);
    assert!(Client::accepts(200));
    for status in [100, 199, 201, 204, 301, 404, 500] {
        assert!(!Client::accepts(status));
        assert_eq!(client.download(status, b"", false), Err(status));
    }
    let action = client.download(200, b"", false).unwrap();
    assert!(action.is_added());
    assert_eq!(action, client.store().save(b"", false));
    assert_eq!(
        client.download(200, b"", true),
        Ok(Action::Found { entry: action.entry().clone() })
    );
}

#[test]
fn the_shutdown_is_acted_on_once() {
    let mut shutdown = Shutdown::new();
    assert!(!shutdown.closed);
    assert!(shutdown.close());
    assert!(shutdown.closed);
    assert!(!shutdown.close());
    assert!(!shutdown.close());
    assert!(Shutdown::signal(Signal::Interrupt));
    assert!(Shutdown::signal(Signal::Terminate));
}
