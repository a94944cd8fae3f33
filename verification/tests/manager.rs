use image_scraper::digest::Digest;
use image_scraper::image_type::ImageType;
use image_scraper::index::timestamp::Timestamp;
use image_scraper::index::db::Database;
use image_scraper::index::Entry;
use image_scraper::manager::worker::{Action, Activity, Event, Phase, Worker};
use image_scraper::manager::{ImageStatus, Manager, UrlConfig, UrlStyle};
use image_scraper::store::Store;

fn manager(secure: bool) -> Manager {
    let config = UrlConfig::new(secure, "example.com:3000".to_string(), "/images/".to_string());
    let store = Store::new("blobs").with_prefix_part_lengths(&[2, 2]).unwrap();
    Manager::new(config, store, 8192, 500)
}

fn entry(seconds: i64, byte: u8) -> Entry {
    Entry {
        timestamp: Timestamp(seconds),
        digest: Digest([byte; 16]),
        image_type: ImageType::new(Some(imghdr::Type::Png)),
    }
}

#[test]
fn a_url_config_keeps_its_parts() {
    let config = UrlConfig::new(true, "s".to_string(), "/b/".to_string());
    assert_eq!(
        config,
        UrlConfig { secure: true, server: "s".to_string(), base_path: "/b/".to_string() }
    );
    assert_eq!(UrlStyle::default(), UrlStyle::Full);
}

#[test]
fn static_urls_are_written_in_each_style() {
    let digest = Digest::from_hex(b"d41d8cd98f00b204e9800998ecf8427e").unwrap();
    let png = ImageType::new(Some(imghdr::Type::Png));
    assert_eq!(
        manager(false).static_url(digest, png, UrlStyle::Full),
        "http://example.com:3000/images/static/d41d8cd98f00b204e9800998ecf8427e.png"
    );
    assert_eq!(
        manager(true).static_url(digest, png, UrlStyle::Full),
        "https://example.com:3000/images/static/d41d8cd98f00b204e9800998ecf8427e.png"
    );
    assert_eq!(
        manager(true).static_url(digest, png, UrlStyle::Absolute),
        "/images/static/d41d8cd98f00b204e9800998ecf8427e.png"
    );
    assert_eq!(
        manager(true).static_url(digest, png, UrlStyle::Relative),
        "static/d41d8cd98f00b204e9800998ecf8427e.png"
    );
    assert_eq!(
        manager(true).static_url(digest, ImageType::empty(), UrlStyle::Relative),
        "static/d41d8cd98f00b204e9800998ecf8427e"
    );
}

#[test]
fn request_urls_are_written_in_each_style() {
    assert_eq!(
        manager(false).request_url("aHR0cA", UrlStyle::Full),
        "http://example.com:3000/images/request/aHR0cA"
    );
    assert_eq!(
        manager(true).request_url("aHR0cA", UrlStyle::Full),
        "https://example.com:3000/images/request/aHR0cA"
    );
    assert_eq!(manager(true).request_url("aHR0cA", UrlStyle::Absolute), "/images/request/aHR0cA");
    assert_eq!(manager(true).request_url("aHR0cA", UrlStyle::Relative), "request/aHR0cA");
}

#[test]
fn a_url_without_attempts_is_downloading() {
    assert_eq!(Manager::lookup_status(&vec![]), ImageStatus::Downloading);
}

#[test]
fn a_success_counts_whatever_failed_after_it() {
    let rows = vec![Err(Timestamp(30)), Err(Timestamp(20)), Ok(entry(10, 1))];
    assert_eq!(Manager::lookup_status(&rows), ImageStatus::Downloaded { entry: entry(10, 1) });
}

#[test]
fn the_most_recent_success_is_the_one_that_counts() {
    let rows = vec![Err(Timestamp(40)), Ok(entry(30, 3)), Err(Timestamp(20)), Ok(entry(10, 1))];
    assert_eq!(Manager::lookup_status(&rows), ImageStatus::Downloaded { entry: entry(30, 3) });
    let rows = vec![Ok(entry(30, 3))];
    assert_eq!(Manager::lookup_status(&rows), ImageStatus::Downloaded { entry: entry(30, 3) });
}

#[test]
fn a_url_with_failures_only_has_failed() {
    let rows = vec![Err(Timestamp(30)), Err(Timestamp(20))];
    assert_eq!(
        Manager::lookup_status(&rows),
        ImageStatus::Failed { timestamp: Timestamp(30) }
    );
}

#[test]
fn the_path_of_a_digest_is_given_where_its_file_is_there() {
    let digest = Digest::from_hex(b"d41d8cd98f00b204e9800998ecf8427e").unwrap();
    let manager = manager(false);
    assert_eq!(manager.path_for_digest(digest, false), None);
    assert_eq!(
        manager.path_for_digest(digest, true),
        Some(
            ["blobs", "d4", "1d", "d41d8cd98f00b204e9800998ecf8427e"]
                .iter()
                .map(|name| name.to_string())
                .collect()
        )
    );
    assert_eq!(manager.store().base, "blobs");
    assert_eq!(manager.request_buffer_size(), 8192);
}

#[test]
fn the_worker_fetches_one_url_at_a_time() {
    let mut worker = manager(false).worker();
    assert_eq!(worker, Worker { activity: Activity::Receiving, delay: 500 });
    assert_eq!(worker.phase(), Phase::Running);

    assert_eq!(worker.handle_requests(Event::Request("a".to_string())), Action::Fetch("a".to_string()));
    assert_eq!(worker.activity, Activity::Fetching);
    assert_eq!(worker.handle_requests(Event::Request("b".to_string())), Action::Ignore);
    assert_eq!(worker.handle_requests(Event::Sentinel), Action::Ignore);
    assert_eq!(worker.handle_requests(Event::Rested), Action::Ignore);
    assert_eq!(worker.activity, Activity::Fetching);

    assert_eq!(worker.handle_requests(Event::Fetched), Action::ReplyAndRest(500));
    assert_eq!(worker.activity, Activity::Resting);
    assert_eq!(worker.handle_requests(Event::Request("b".to_string())), Action::Ignore);
    assert_eq!(worker.handle_requests(Event::Fetched), Action::Ignore);

    assert_eq!(worker.handle_requests(Event::Rested), Action::Receive);
    assert_eq!(worker.activity, Activity::Receiving);
    assert_eq!(worker.phase(), Phase::Running);
    assert_eq!(worker.handle_requests(Event::Request("b".to_string())), Action::Fetch("b".to_string()));
}

#[test]
fn as_many_fetches_as_requests_each_followed_by_the_rest() {
    let mut worker = Worker::new(250);
    let mut actions = vec![];
    let urls = ["a", "b", "c", "d"];
    for url in urls {
        actions.push(worker.handle_requests(Event::Request(url.to_string())));
        actions.push(worker.handle_requests(Event::Fetched));
        actions.push(worker.handle_requests(Event::Rested));
    }
    let fetched = actions
        .iter()
        .filter_map(|action| match action {
            Action::Fetch(url) => Some(url.as_str()),
            _ => None,
        })
        .collect::<Vec<_>>();
    assert_eq!(fetched, urls);
    for step in actions.chunks(3) {
        assert!(matches!(step[0], Action::Fetch(_)));
        assert_eq!(step[1], Action::ReplyAndRest(250));
        assert_eq!(step[2], Action::Receive);
    }
}

#[test]
fn the_stop_entry_drains_and_stops_the_worker() {
    let mut worker = Worker::new(1);
    assert_eq!(worker.handle_requests(Event::Sentinel), Action::Close);
    assert_eq!(worker.phase(), Phase::Draining);
    assert_eq!(worker.handle_requests(Event::Request("a".to_string())), Action::Ignore);
    assert_eq!(worker.phase(), Phase::Draining);
    assert_eq!(worker.handle_requests(Event::Closed), Action::Stop);
    assert_eq!(worker.phase(), Phase::Stopped);
    for event in [Event::Request("a".to_string()), Event::Sentinel, Event::Closed, Event::Fetched, Event::Rested] {
        assert_eq!(worker.handle_requests(event), Action::Ignore);
        assert_eq!(worker.phase(), Phase::Stopped);
    }
}

#[test]
fn a_queue_that_was_dropped_stops_the_worker() {
    let mut worker = Worker::new(1);
    assert_eq!(worker.handle_requests(Event::Closed), Action::Stop);
    assert_eq!(worker.phase(), Phase::Stopped);
}

#[test]
fn a_failure_after_a_success_leaves_the_url_downloaded() {
    let scan = vec![
        Database::add("u", entry(10, 1)),
        Database::add_failed("u", Timestamp(20)),
        Database::add_failed("v", Timestamp(30)),
    ];
    let rows = Database::lookup("u", &scan).unwrap();
    assert_eq!(rows, vec![Err(Timestamp(20)), Ok(entry(10, 1))]);
    assert_eq!(Manager::lookup_status(&rows), ImageStatus::Downloaded { entry: entry(10, 1) });

    let rows = Database::lookup("v", &scan[2..].to_vec()).unwrap();
    assert_eq!(Manager::lookup_status(&rows), ImageStatus::Failed { timestamp: Timestamp(30) });
    let rows = Database::lookup("w", &vec![]).unwrap();
    assert_eq!(Manager::lookup_status(&rows), ImageStatus::Downloading);
}
