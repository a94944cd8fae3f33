//! What the service answers from: the status of a url in the index and the
//! urls under which blobs and requests are reached.

pub mod worker;

use crate::digest::{hex_lower, Digest};
use crate::image_type::{name_of, ImageType};
use crate::index::timestamp::Timestamp;
use crate::index::{row_view, rows_view, Entry, EntryView, Row, RowView};
use crate::manager::worker::Worker;
use crate::store::{path_of, Store};
use crate::text::names_view;
use imghdr::Type;
use vstd::prelude::*;
use vstd::string::StringExecFns;

verus! {

/// Where the service is reached.
#[derive(Clone, Debug, Eq, PartialEq)]
pub struct UrlConfig {
    pub secure: bool,
    pub server: String,
    pub base_path: String,
}

/// How much of a url is written out.
#[derive(Clone, Copy, Debug, Default, Eq, PartialEq, Structural)]
pub enum UrlStyle {
    /// Scheme, server and path.
    #[default]
    Full,
    /// The path from the server's root.
    Absolute,
    /// The path below the service's base path.
    Relative,
}

/// What the index knows of a url.
#[derive(Clone, Copy, Debug, Eq, PartialEq)]
pub enum ImageStatus {
    /// A fetch succeeded.
    Downloaded { entry: Entry },
    /// No attempt is recorded.
    Downloading,
    /// Every recorded attempt failed.
    Failed { timestamp: Timestamp },
}

/// An `ImageStatus` as plain values.
pub enum ImageStatusView {
    Downloaded { entry: EntryView },
    Downloading,
    Failed { timestamp: Timestamp },
}

impl View for ImageStatus {
    type V = ImageStatusView;

    open spec fn view(&self) -> ImageStatusView {
        match self {
            ImageStatus::Downloaded { entry } => ImageStatusView::Downloaded { entry: entry@ },
            ImageStatus::Downloading => ImageStatusView::Downloading,
            ImageStatus::Failed { timestamp } => ImageStatusView::Failed { timestamp: *timestamp },
        }
    }
}

/// The plain parts of the service: where it is reached, where blobs are
/// kept, how many requests may wait and how long the worker rests between
/// fetches.
#[derive(Clone, Debug)]
pub struct Manager {
    url_config: UrlConfig,
    store: Store,
    request_buffer_size: usize,
    delay: u64,
}

/// The position of the first success in `rows`; their number where none is
/// a success.
pub open spec fn first_success(rows: Seq<RowView>) -> int
    decreases rows.len(),
{
    if rows.len() == 0 || rows[0] is Ok {
        0
    } else {
        1 + first_success(rows.drop_first())
    }
}

/// The status that the attempts `rows` on a url, most recent first, give
/// it. A success counts whatever failures came after it.
pub open spec fn status_of(rows: Seq<RowView>) -> ImageStatusView {
    if rows.len() == 0 {
        ImageStatusView::Downloading
    } else if first_success(rows) < rows.len() {
        ImageStatusView::Downloaded { entry: rows[first_success(rows)]->Ok_0 }
    } else {
        ImageStatusView::Failed { timestamp: rows[0]->Err_0 }
    }
}

/// The start of a url in the given style.
pub open spec fn url_prefix(secure: bool, server: Seq<char>, base_path: Seq<char>, style: UrlStyle) -> Seq<
    char,
> {
    let origin = if style == UrlStyle::Full {
        (if secure {
            "https://"@
        } else {
            "http://"@
        }) + server
    } else {
        Seq::empty()
    };
    if style != UrlStyle::Relative {
        origin + base_path
    } else {
        origin
    }
}

/// The url under which the blob with digest `digest` is served.
pub open spec fn static_url_of(
    secure: bool,
    server: Seq<char>,
    base_path: Seq<char>,
    digest: Seq<u8>,
    kind: Option<Type>,
    style: UrlStyle,
) -> Seq<char> {
    let start = url_prefix(secure, server, base_path, style) + "static/"@ + hex_lower(digest);
    if name_of(kind).len() == 0 {
        start
    } else {
        start + "."@ + name_of(kind)
    }
}

/// The url under which the fetch of an encoded url is requested.
pub open spec fn request_url_of(
    secure: bool,
    server: Seq<char>,
    base_path: Seq<char>,
    encoded_url: Seq<char>,
    style: UrlStyle,
) -> Seq<char> {
    url_prefix(secure, server, base_path, style) + "request/"@ + encoded_url
}

proof fn lemma_first_success(rows: Seq<RowView>)
    ensures
        0 <= first_success(rows) <= rows.len(),
        forall|i: int| 0 <= i < first_success(rows) ==> (#[trigger] rows[i]) is Err,
        first_success(rows) < rows.len() ==> rows[first_success(rows)] is Ok,
    decreases rows.len(),
{
    if rows.len() > 0 && rows[0] is Err {
        let rest = rows.drop_first();
        lemma_first_success(rest);
        assert forall|i: int| 0 <= i < first_success(rows) implies (#[trigger] rows[i]) is Err by {
            if i > 0 {
                assert(rows[i] == rest[i - 1]);
            }
        }
        if first_success(rows) < rows.len() {
            assert(rows[first_success(rows)] == rest[first_success(rest)]);
        }
    }
}

/// A url of which a success is recorded counts as downloaded, with the
/// first success of the rows, however many failures are recorded before or
/// after it; a url counts as failed only where attempts are recorded and
/// none succeeded.
pub proof fn lemma_success_takes_precedence(rows: Seq<RowView>)
    ensures
        (exists|i: int| 0 <= i < rows.len() && (#[trigger] rows[i]) is Ok) <==> status_of(
            rows,
        ) is Downloaded,
        status_of(rows) is Failed <==> rows.len() > 0 && forall|i: int|
            0 <= i < rows.len() ==> (#[trigger] rows[i]) is Err,
        status_of(rows) is Downloading <==> rows.len() == 0,
{
    lemma_first_success(rows);
}

/// A url counts as downloaded as soon as the index holds one success for
/// it, whatever failures it holds besides and whenever they happened: the
/// order in which a lookup puts the attempts changes nothing of that.
pub proof fn lemma_status_after_lookup(rows: Seq<RowView>, i: int)
    requires
        0 <= i < rows.len(),
        rows[i] is Ok,
    ensures
        status_of(crate::index::db::recent_first(rows)) is Downloaded,
        crate::index::db::recent_first(rows).contains(
            Ok(status_of(crate::index::db::recent_first(rows))->entry),
        ),
        rows.contains(Ok(status_of(crate::index::db::recent_first(rows))->entry)),
{
    broadcast use vstd::seq_lib::group_to_multiset_ensures;

    let sorted = crate::index::db::recent_first(rows);
    crate::index::order::lemma_recent_first(rows);
    rows.to_multiset_ensures();
    sorted.to_multiset_ensures();
    assert(rows.to_multiset().count(rows[i]) > 0);
    assert(sorted.contains(rows[i]));
    let k = choose|k: int| 0 <= k < sorted.len() && sorted[k] == rows[i];
    lemma_first_success(sorted);
    lemma_success_takes_precedence(sorted);
    let found = sorted[first_success(sorted)];
    assert(found == Ok::<EntryView, Timestamp>(status_of(sorted)->entry));
    assert(sorted.to_multiset().count(found) > 0);
    assert(rows.contains(found));
}

impl UrlConfig {
    #[must_use]
    pub fn new(secure: bool, server: String, base_path: String) -> (config: Self)
        ensures
            config.secure == secure,
            config.server == server,
            config.base_path == base_path,
    {
        Self { secure, server, base_path }
    }

    /// The start of a url in the given style.
    fn prefix(&self, style: UrlStyle) -> (prefix: String)
        ensures
            prefix@ == url_prefix(self.secure, self.server@, self.base_path@, style),
    {
        let mut prefix = String::new();
        if style == UrlStyle::Full {
            prefix.append(
                if self.secure {
                    "https://"
                } else {
                    "http://"
                },
            );
            prefix.append(self.server.as_str());
        }
        if style != UrlStyle::Relative {
            prefix.append(self.base_path.as_str());
        }
        assert(prefix@ =~= url_prefix(self.secure, self.server@, self.base_path@, style));
        prefix
    }
}

impl Manager {
    pub closed spec fn config(&self) -> UrlConfig {
        self.url_config
    }

    pub closed spec fn blobs(&self) -> Store {
        self.store
    }

    pub closed spec fn buffer(&self) -> usize {
        self.request_buffer_size
    }

    pub closed spec fn rest(&self) -> u64 {
        self.delay
    }

    /// The service's plain parts: `request_buffer_size` requests may wait,
    /// and the worker rests `delay` milliseconds after each fetch.
    pub fn new(url_config: UrlConfig, store: Store, request_buffer_size: usize, delay: u64) -> (manager:
        Self)
        ensures
            manager.config() == url_config,
            manager.blobs() == store,
            manager.buffer() == request_buffer_size,
            manager.rest() == delay,
    {
        Self { url_config, store, request_buffer_size, delay }
    }

    /// The number of requests that may wait for the worker.
    pub fn request_buffer_size(&self) -> (size: usize)
        ensures
            size == self.buffer(),
    {
        self.request_buffer_size
    }

    /// The store that blobs are kept in.
    pub fn store(&self) -> (store: &Store)
        ensures
            *store == self.blobs(),
    {
        &self.store
    }

    /// The worker of this service, before it has taken a request.
    pub fn worker(&self) -> (worker: Worker)
        ensures
            worker == Worker::new_spec(self.rest()),
    {
        Worker::new(self.delay)
    }

    /// The status of a url, from the attempts on it that the index shows,
    /// most recent first.
    pub fn lookup_status(results: &Vec<Row>) -> (status: ImageStatus)
        ensures
            status@ == status_of(rows_view(results@)),
    {
        let ghost rows = rows_view(results@);
        if results.len() == 0 {
            return ImageStatus::Downloading;
        }
        let mut i: usize = 0;
        assert(rows.skip(0) =~= rows);
        while i < results.len()
            invariant
                i <= results.len(),
                rows == rows_view(results@),
                first_success(rows) == i + first_success(rows.skip(i as int)),
            decreases results.len() - i,
        {
            proof {
                assert(rows.skip(i as int)[0] == row_view(results@[i as int]));
                assert(rows.skip(i as int).drop_first() =~= rows.skip(i + 1));
            }
            if let Ok(entry) = results[i] {
                return ImageStatus::Downloaded { entry };
            }
            i += 1;
        }
        match results[0] {
            Err(timestamp) => ImageStatus::Failed { timestamp },
            Ok(entry) => {
                proof {
                    lemma_first_success(rows);
                }
                ImageStatus::Downloaded { entry }
            },
        }
    }

    /// The path of the blob with digest `digest`, where `is_file` says that
    /// a regular file lies there.
    pub fn path_for_digest(&self, digest: Digest, is_file: bool) -> (path: Option<Vec<String>>)
        requires
            self.blobs().wf(),
        ensures
            match path {
                Some(path) => is_file && names_view(path@) == path_of(
                    self.blobs().base@,
                    self.blobs().prefix_part_lengths@,
                    digest@,
                ),
                None => !is_file,
            },
    {
        if is_file {
            Some(self.store.path(digest))
        } else {
            None
        }
    }

    /// The url under which the blob with digest `digest` is served: the
    /// start of the url, `static/`, the digest's name and, where the
    /// content type is known, a dot and its name.
    pub fn static_url(&self, digest: Digest, image_type: ImageType, style: UrlStyle) -> (url: String)
        ensures
            url@ == static_url_of(
                self.config().secure,
                self.config().server@,
                self.config().base_path@,
                digest@,
                image_type@,
                style,
            ),
    {
        let name = image_type.as_str();
        let mut url = self.url_config.prefix(style);
        url.append("static/");
        url.append(digest.to_hex().as_str());
        if !name.is_empty() {
            url.append(".");
            url.append(name);
        }
        url
    }

    /// The url under which the fetch of `encoded_url` is requested: the
    /// start of the url, `request/` and the encoded url.
    pub fn request_url(&self, encoded_url: &str, style: UrlStyle) -> (url: String)
        ensures
            url@ == request_url_of(
                self.config().secure,
                self.config().server@,
                self.config().base_path@,
                encoded_url@,
                style,
            ),
    {
        let mut url = self.url_config.prefix(style);
        url.append("request/");
        url.append(encoded_url);
        url
    }
}

} // verus!
