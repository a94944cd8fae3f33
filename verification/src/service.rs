//! What the service decides for each request: what a name under `static/`
//! stands for, what a request for a url leads to, which url to hand out for
//! a url, and with which status an error is answered.

use crate::digest::{hex_lower, is_hex, unhex, Digest};
use crate::image_type::{kind_named, mime_of, name_of, ImageType};
use crate::index::timestamp::Timestamp;
use crate::index::{Entry, EntryView};
use crate::manager::{
    request_url_of, static_url_of, ImageStatus, ImageStatusView, Manager, UrlStyle,
};
use crate::store::{Action, ActionView};
use crate::text::string_from_utf8;
use base64::Engine;
use imghdr::Type;
use vstd::prelude::*;
use vstd::string::StrSliceExecFns;
use vstd::string::StringExecFns;
use vstd::utf8::{encode_utf8, valid_utf8};

verus! {

/// Why the queue of the worker could not be used.
#[derive(Clone, Copy, Debug, Eq, PartialEq, Structural)]
pub enum ChannelError {
    /// The request could not be handed to the queue.
    Send,
    /// The answer never came.
    Receive,
}

/// Why the service could not shut down in order.
#[derive(Clone, Copy, Debug, Eq, PartialEq, Structural)]
pub enum ShutdownError {
    /// The worker did not finish in order.
    RequestTaskJoin,
    /// The stop entry could not be handed to the queue.
    Send,
}

/// Why a blob cannot be served.
#[derive(Debug)]
pub enum StaticImageError {
    InvalidFormat(String),
    InvalidDigest(String),
    InvalidExtension(String),
    ImageNotFound(Digest),
    ImageIo(Digest, std::io::Error),
}

/// Why a request for a url gave no image.
#[derive(Debug)]
pub enum RequestImageError {
    InvalidFormat(String),
    InvalidUtf8(Vec<u8>),
    Index(crate::index::db::Error),
    DownloadFailed(String, Timestamp),
    InvalidImageType(ImageType),
    UnexpectedStatus(u16),
    DownloadQueue(ChannelError),
    Http(crate::client::Error),
}

/// Why urls could not be mapped.
#[derive(Debug)]
pub enum MapUrlsError {
    Index(crate::index::db::Error),
}

/// What a request for a url leads to.
#[derive(Clone, Debug, Eq, PartialEq)]
pub enum Request {
    /// The blob is there: send the caller to it.
    Redirect(String),
    /// No attempt is recorded: fetch the url.
    Fetch,
}

/// The status with which a mistake of the caller is answered.
pub const BAD_REQUEST: u16 = 400;

/// The status with which a failure of the service is answered.
pub const INTERNAL_SERVER_ERROR: u16 = 500;

/// The character that stands for six bits in a token.
pub open spec fn sextet_char(value: int) -> char {
    if value < 26 {
        (value + 65) as char
    } else if value < 52 {
        (value + 71) as char
    } else if value < 62 {
        (value - 4) as char
    } else if value == 62 {
        '-'
    } else {
        '_'
    }
}

/// The token that stands for `bytes`: base 64 in the alphabet that is safe
/// in urls, without padding.
pub open spec fn token_of(bytes: Seq<u8>) -> Seq<char>
    decreases bytes.len(),
{
    if bytes.len() == 0 {
        Seq::empty()
    } else if bytes.len() == 1 {
        seq![sextet_char(bytes[0] as int / 4), sextet_char(bytes[0] as int % 4 * 16)]
    } else if bytes.len() == 2 {
        seq![
            sextet_char(bytes[0] as int / 4),
            sextet_char(bytes[0] as int % 4 * 16 + bytes[1] as int / 16),
            sextet_char(bytes[1] as int % 16 * 4),
        ]
    } else {
        seq![
            sextet_char(bytes[0] as int / 4),
            sextet_char(bytes[0] as int % 4 * 16 + bytes[1] as int / 16),
            sextet_char(bytes[1] as int % 16 * 4 + bytes[2] as int / 64),
            sextet_char(bytes[2] as int % 64),
        ] + token_of(bytes.skip(3))
    }
}

/// A token for so many bytes can be written: its length is one that a
/// string can have.
pub open spec fn encodable(length: int) -> bool {
    length / 3 <= (isize::MAX - 3) / 4
}

/// Calls `encode` of base64's `URL_SAFE_NO_PAD` engine: every three bytes
/// become four characters of the url-safe alphabet, and one or two bytes
/// that are left become two or three; no padding is added. The call panics
/// where the length of the result is none that a string can have, so that
/// such inputs are left out.
#[verifier::external_body]
fn base64_encode(bytes: &[u8]) -> (token: String)
    requires
        encodable(bytes@.len() as int),
    ensures
        token@ == token_of(bytes@),
{
    base64::engine::general_purpose::URL_SAFE_NO_PAD.encode(bytes)
}

/// Calls `decode` of base64's `URL_SAFE_NO_PAD` engine. It succeeds exactly
/// on what `encode` of that engine gives, and then gives the bytes that were
/// encoded: padding, characters outside the alphabet, a single character
/// left over and bits set beyond the last byte are all refused.
#[verifier::external_body]
fn base64_decode(token: &str) -> (bytes: Option<Vec<u8>>)
    ensures
        match bytes {
            Some(bytes) => token@ == token_of(bytes@),
            None => forall|any: Seq<u8>| token@ != #[trigger] token_of(any),
        },
{
    base64::engine::general_purpose::URL_SAFE_NO_PAD.decode(token).ok()
}

/// The position of the first dot in `text`; its length where it has none.
pub open spec fn first_dot(text: Seq<char>) -> int
    decreases text.len(),
{
    if text.len() == 0 || text[0] == '.' {
        0
    } else {
        1 + first_dot(text.drop_first())
    }
}

/// The number of dots in `text`.
pub open spec fn dots(text: Seq<char>) -> int
    decreases text.len(),
{
    if text.len() == 0 {
        0
    } else {
        dots(text.drop_last()) + if text.last() == '.' {
            1int
        } else {
            0int
        }
    }
}

/// `StaticImageError` as plain values.
pub enum StaticImageErrorView {
    InvalidFormat(Seq<char>),
    InvalidDigest(Seq<char>),
    InvalidExtension(Seq<char>),
    ImageNotFound(Seq<u8>),
    ImageIo(Seq<u8>, std::io::Error),
}

impl View for StaticImageError {
    type V = StaticImageErrorView;

    open spec fn view(&self) -> StaticImageErrorView {
        match self {
            StaticImageError::InvalidFormat(text) => StaticImageErrorView::InvalidFormat(text@),
            StaticImageError::InvalidDigest(text) => StaticImageErrorView::InvalidDigest(text@),
            StaticImageError::InvalidExtension(text) => StaticImageErrorView::InvalidExtension(
                text@,
            ),
            StaticImageError::ImageNotFound(digest) => StaticImageErrorView::ImageNotFound(
                digest@,
            ),
            StaticImageError::ImageIo(digest, error) => StaticImageErrorView::ImageIo(
                digest@,
                *error,
            ),
        }
    }
}

/// What a name under `static/` stands for: the digest and the media type of
/// a blob. The name must be a digest's 32 hexadecimal characters, of either
/// case, one dot, and the name of a format that has a media type.
pub open spec fn static_image_of(text: Seq<char>) -> Result<
    (Seq<u8>, Seq<char>),
    StaticImageErrorView,
> {
    let name = text.take(first_dot(text));
    let extension = text.skip(first_dot(text) + 1);
    if dots(text) != 1 {
        Err(StaticImageErrorView::InvalidFormat(text))
    } else if !(encode_utf8(name).len() == 32 && is_hex(encode_utf8(name))) {
        Err(StaticImageErrorView::InvalidDigest(name))
    } else if kind_named(extension) is Some && mime_of(kind_named(extension)->0) is Some {
        Ok((unhex(encode_utf8(name)), mime_of(kind_named(extension)->0)->0))
    } else {
        Err(StaticImageErrorView::InvalidExtension(extension))
    }
}

pub open spec fn static_image_view(result: Result<(Digest, &'static str), StaticImageError>) -> Result<
    (Seq<u8>, Seq<char>),
    StaticImageErrorView,
> {
    match result {
        Ok((digest, mime)) => Ok((digest@, mime@)),
        Err(error) => Err(error@),
    }
}

/// Where a caller is sent for a blob that is there.
pub open spec fn redirect_of(entry: EntryView) -> Seq<char> {
    "/static/"@ + hex_lower(entry.digest) + "."@ + name_of(entry.kind)
}

/// `RequestImageError` as far as the decisions of this module make it.
pub enum RequestImageErrorView {
    InvalidFormat(Seq<char>),
    InvalidUtf8(Seq<u8>),
    DownloadFailed(Seq<char>, Timestamp),
    InvalidImageType(Option<Type>),
    Other,
}

impl View for RequestImageError {
    type V = RequestImageErrorView;

    open spec fn view(&self) -> RequestImageErrorView {
        match self {
            RequestImageError::InvalidFormat(text) => RequestImageErrorView::InvalidFormat(text@),
            RequestImageError::InvalidUtf8(bytes) => RequestImageErrorView::InvalidUtf8(bytes@),
            RequestImageError::DownloadFailed(url, timestamp) => {
                RequestImageErrorView::DownloadFailed(url@, *timestamp)
            },
            RequestImageError::InvalidImageType(image_type) => {
                RequestImageErrorView::InvalidImageType(image_type@)
            },
            _ => RequestImageErrorView::Other,
        }
    }
}

/// `Request` as plain values.
pub enum RequestView {
    Redirect(Seq<char>),
    Fetch,
}

/// What a request for `url` leads to, given what the index knows of the
/// url: a redirect to the blob of a success; a fetch where no attempt is
/// recorded; a refusal where every attempt failed.
pub open spec fn request_of(url: Seq<char>, status: ImageStatusView) -> Result<
    RequestView,
    RequestImageErrorView,
> {
    match status {
        ImageStatusView::Downloaded { entry } => Ok(RequestView::Redirect(redirect_of(entry))),
        ImageStatusView::Downloading => Ok(RequestView::Fetch),
        ImageStatusView::Failed { timestamp } => Err(
            RequestImageErrorView::DownloadFailed(url, timestamp),
        ),
    }
}

pub open spec fn request_view(result: Result<Request, RequestImageError>) -> Result<
    RequestView,
    RequestImageErrorView,
> {
    match result {
        Ok(Request::Redirect(location)) => Ok(RequestView::Redirect(location@)),
        Ok(Request::Fetch) => Ok(RequestView::Fetch),
        Err(error) => Err(error@),
    }
}

/// The content type that a fetch recorded: that of a blob that was added.
pub open spec fn kind_recorded(action: ActionView) -> Option<Type> {
    match action {
        ActionView::Added { kind, .. } => kind,
        ActionView::Found { .. } => None,
    }
}

/// The digest of the blob that an action speaks of.
pub open spec fn digest_saved(action: ActionView) -> Seq<u8> {
    match action {
        ActionView::Added { entry, .. } => entry.digest,
        ActionView::Found { entry } => entry.digest,
    }
}

/// What a fetch that saved a blob is answered with and recorded as: the
/// media type to serve the blob under and the entry for the index. A blob
/// that was there already, or whose format is unknown or has no media type,
/// is refused.
pub open spec fn fetched_of(action: ActionView, now: Timestamp) -> Result<
    (Seq<char>, EntryView),
    RequestImageErrorView,
> {
    let kind = kind_recorded(action);
    if kind is Some && mime_of(kind) is Some {
        Ok((mime_of(kind)->0, EntryView { timestamp: now, digest: digest_saved(action), kind }))
    } else {
        Err(RequestImageErrorView::InvalidImageType(kind))
    }
}

pub open spec fn fetched_view(result: Result<(&'static str, Entry), RequestImageError>) -> Result<
    (Seq<char>, EntryView),
    RequestImageErrorView,
> {
    match result {
        Ok((mime, entry)) => Ok((mime@, entry@)),
        Err(error) => Err(error@),
    }
}

/// The url that is handed out for `url`: that of its blob where a fetch
/// succeeded; that of a request for it where no attempt is recorded; none
/// where every attempt failed.
pub open spec fn mapped_url(
    secure: bool,
    server: Seq<char>,
    base_path: Seq<char>,
    url: Seq<char>,
    status: ImageStatusView,
    style: UrlStyle,
) -> Option<Seq<char>> {
    match status {
        ImageStatusView::Downloaded { entry } => Some(
            static_url_of(secure, server, base_path, entry.digest, entry.kind, style),
        ),
        ImageStatusView::Downloading => Some(
            request_url_of(secure, server, base_path, token_of(encode_utf8(url)), style),
        ),
        ImageStatusView::Failed { .. } => None,
    }
}

pub open spec fn url_view(url: Option<String>) -> Option<Seq<char>> {
    match url {
        Some(url) => Some(url@),
        None => None,
    }
}

proof fn lemma_first_dot_is(text: Seq<char>, at: int)
    requires
        0 <= at <= text.len(),
        forall|i: int| 0 <= i < at ==> #[trigger] text[i] != '.',
        at < text.len() ==> text[at] == '.',
    ensures
        first_dot(text) == at,
    decreases text.len(),
{
    if at > 0 {
        let rest = text.drop_first();
        assert forall|i: int| 0 <= i < at - 1 implies #[trigger] rest[i] != '.' by {
            assert(rest[i] == text[i + 1]);
        }
        lemma_first_dot_is(rest, at - 1);
    }
}

/// The token that stands for `url` in the urls of the service, where one
/// can be written.
pub fn encode_url(url: &str) -> (token: Option<String>)
    ensures
        token is Some <==> encodable(encode_utf8(url@).len() as int),
        token matches Some(token) ==> token@ == token_of(encode_utf8(url@)),
{
    let bytes = url.as_bytes();
    if bytes.len() / 3 <= (isize::MAX as usize - 3) / 4 {
        Some(base64_encode(bytes))
    } else {
        None
    }
}

/// The url that a token stands for. A token that no bytes are written as is
/// refused, and so are bytes that are no text.
pub fn decode_url(token: &str) -> (result: Result<String, RequestImageError>)
    ensures
        match result {
            Ok(url) => token@ == token_of(encode_utf8(url@)),
            Err(error) => match error@ {
                RequestImageErrorView::InvalidFormat(text) => text == token@ && forall|
                    any: Seq<u8>,
                | token@ != #[trigger] token_of(any),
                RequestImageErrorView::InvalidUtf8(bytes) => token@ == token_of(bytes)
                    && !valid_utf8(bytes),
                _ => false,
            },
        },
{
    match base64_decode(token) {
        None => Err(RequestImageError::InvalidFormat(token.to_owned())),
        Some(bytes) => {
            let copy = bytes.clone();
            match string_from_utf8(bytes) {
                Some(url) => {
                    proof {
                        vstd::utf8::decode_utf8_encode_utf8(bytes@);
                    }
                    Ok(url)
                },
                None => Err(RequestImageError::InvalidUtf8(copy)),
            }
        },
    }
}

/// What a name under `static/` stands for.
pub fn static_image(digest_with_image_type: &str) -> (result: Result<
    (Digest, &'static str),
    StaticImageError,
>)
    ensures
        static_image_view(result) == static_image_of(digest_with_image_type@),
{
    let text = digest_with_image_type;
    let length = text.unicode_len();
    let mut count: usize = 0;
    let mut first: usize = length;
    let mut i: usize = 0;
    assert(text@.take(0) =~= Seq::<char>::empty());
    while i < length
        invariant
            i <= length,
            length == text@.len(),
            count == dots(text@.take(i as int)),
            count <= i,
            count == 0 ==> first == length,
            count > 0 ==> first < i && text@[first as int] == '.',
            forall|j: int| 0 <= j < i && j < first ==> #[trigger] text@[j] != '.',
        decreases length - i,
    {
        let c = text.get_char(i);
        proof {
            assert(text@.take(i + 1).drop_last() =~= text@.take(i as int));
            assert(text@.take(i + 1).last() == c);
        }
        if c == '.' {
            if count == 0 {
                first = i;
            }
            count += 1;
        }
        i += 1;
    }
    proof {
        assert(text@.take(length as int) =~= text@);
        lemma_first_dot_is(text@, first as int);
    }
    if count != 1 {
        return Err(StaticImageError::InvalidFormat(text.to_owned()));
    }
    let name = text.substring_char(0, first);
    let extension = text.substring_char(first + 1, length);
    assert(name@ =~= text@.take(first as int));
    assert(extension@ =~= text@.skip(first + 1));
    let digest = match Digest::from_hex(name.as_bytes()) {
        Ok(digest) => digest,
        Err(_) => {
            return Err(StaticImageError::InvalidDigest(name.to_owned()));
        },
    };
    let mime = match ImageType::from_str(extension) {
        Ok(image_type) => image_type.mime_type(),
        Err(_) => None,
    };
    match mime {
        Some(mime) => Ok((digest, mime)),
        None => Err(StaticImageError::InvalidExtension(extension.to_owned())),
    }
}

/// What a request for `url` leads to, given what the index knows of it.
pub fn request_image(url: &str, status: ImageStatus) -> (result: Result<Request, RequestImageError>)
    ensures
        request_view(result) == request_of(url@, status@),
{
    match status {
        ImageStatus::Downloaded { entry } => {
            let mut location = String::from_str("/static/");
            location.append(entry.digest.to_hex().as_str());
            location.append(".");
            location.append(entry.image_type.as_str());
            Ok(Request::Redirect(location))
        },
        ImageStatus::Downloading => Ok(Request::Fetch),
        ImageStatus::Failed { timestamp } => Err(
            RequestImageError::DownloadFailed(url.to_owned(), timestamp),
        ),
    }
}

/// What a fetch that saved a blob at the time `now` is answered with and
/// recorded as.
pub fn fetched(action: &Action, now: Timestamp) -> (result: Result<
    (&'static str, Entry),
    RequestImageError,
>)
    ensures
        fetched_view(result) == fetched_of(action@, now),
{
    let image_type = match action {
        Action::Added { image_type, .. } => *image_type,
        Action::Found { .. } => ImageType::empty(),
    };
    match (image_type.mime_type(), image_type.value()) {
        (Some(mime), Some(_)) => Ok(
            (mime, Entry { timestamp: now, digest: action.entry().digest, image_type }),
        ),
        _ => Err(RequestImageError::InvalidImageType(image_type)),
    }
}

/// The url that is handed out for `url`, given what the index knows of it;
/// in full where no style is asked for.
pub fn map_url(manager: &Manager, url: &str, status: ImageStatus, style: Option<UrlStyle>) -> (mapped:
    Option<String>)
    requires
        status is Downloading ==> encodable(encode_utf8(url@).len() as int),
    ensures
        url_view(mapped) == mapped_url(
            manager.config().secure,
            manager.config().server@,
            manager.config().base_path@,
            url@,
            status@,
            match style {
                Some(style) => style,
                None => UrlStyle::Full,
            },
        ),
{
    let style = match style {
        Some(style) => style,
        None => UrlStyle::Full,
    };
    match status {
        ImageStatus::Downloaded { entry } => Some(
            manager.static_url(entry.digest, entry.image_type, style),
        ),
        ImageStatus::Downloading => {
            let token = base64_encode(url.as_bytes());
            Some(manager.request_url(token.as_str(), style))
        },
        ImageStatus::Failed { .. } => None,
    }
}

/// The urls that are handed out for `urls`, each given with what the index
/// knows of it.
pub fn map_urls(manager: &Manager, urls: &Vec<(String, ImageStatus)>, style: Option<UrlStyle>) -> (mapped:
    Vec<Option<String>>)
    requires
        forall|i: int|
            0 <= i < urls@.len() && (#[trigger] urls@[i]).1 is Downloading ==> encodable(
                encode_utf8(urls@[i].0@).len() as int,
            ),
    ensures
        mapped@.len() == urls@.len(),
        forall|i: int|
            0 <= i < urls@.len() ==> url_view(#[trigger] mapped@[i]) == mapped_url(
                manager.config().secure,
                manager.config().server@,
                manager.config().base_path@,
                urls@[i].0@,
                urls@[i].1@,
                match style {
                    Some(style) => style,
                    None => UrlStyle::Full,
                },
            ),
{
    let mut mapped: Vec<Option<String>> = Vec::new();
    let mut i: usize = 0;
    while i < urls.len()
        invariant
            i <= urls.len(),
            mapped@.len() == i,
            forall|j: int|
                0 <= j < urls@.len() && (#[trigger] urls@[j]).1 is Downloading ==> encodable(
                    encode_utf8(urls@[j].0@).len() as int,
                ),
            forall|j: int|
                0 <= j < i ==> url_view(#[trigger] mapped@[j]) == mapped_url(
                    manager.config().secure,
                    manager.config().server@,
                    manager.config().base_path@,
                    urls@[j].0@,
                    urls@[j].1@,
                    match style {
                        Some(style) => style,
                        None => UrlStyle::Full,
                    },
                ),
        decreases urls.len() - i,
    {
        let one = map_url(manager, urls[i].0.as_str(), urls[i].1, style);
        mapped.push(one);
        i += 1;
    }
    mapped
}

impl StaticImageError {
    /// The status that the error is answered with: a failure of the service
    /// where the blob could not be read, a mistake of the caller otherwise.
    pub fn status_code(&self) -> (status: u16)
        ensures
            status == if self is ImageIo {
                INTERNAL_SERVER_ERROR
            } else {
                BAD_REQUEST
            },
    {
        match self {
            StaticImageError::ImageIo(_, _) => INTERNAL_SERVER_ERROR,
            _ => BAD_REQUEST,
        }
    }
}

impl RequestImageError {
    /// The status that the error is answered with: that of the fetch where
    /// the fetch was answered with another status than 200; a mistake of the
    /// caller for a token that stands for no url, a url whose fetch failed
    /// before and a blob without a media type; a failure of the service
    /// otherwise.
    pub fn status_code(&self) -> (status: u16)
        ensures
            status == match self {
                RequestImageError::InvalidFormat(_) => BAD_REQUEST,
                RequestImageError::InvalidUtf8(_) => BAD_REQUEST,
                RequestImageError::DownloadFailed(_, _) => BAD_REQUEST,
                RequestImageError::InvalidImageType(_) => BAD_REQUEST,
                RequestImageError::UnexpectedStatus(status) => *status,
                RequestImageError::Index(_) => INTERNAL_SERVER_ERROR,
                RequestImageError::DownloadQueue(_) => INTERNAL_SERVER_ERROR,
                RequestImageError::Http(_) => INTERNAL_SERVER_ERROR,
            },
    {
        match self {
            RequestImageError::InvalidFormat(_) => BAD_REQUEST,
            RequestImageError::InvalidUtf8(_) => BAD_REQUEST,
            RequestImageError::DownloadFailed(_, _) => BAD_REQUEST,
            RequestImageError::InvalidImageType(_) => BAD_REQUEST,
            RequestImageError::UnexpectedStatus(status) => *status,
            RequestImageError::Index(_) => INTERNAL_SERVER_ERROR,
            RequestImageError::DownloadQueue(_) => INTERNAL_SERVER_ERROR,
            RequestImageError::Http(_) => INTERNAL_SERVER_ERROR,
        }
    }
}

impl MapUrlsError {
    /// The status that the error is answered with.
    pub fn status_code(&self) -> (status: u16)
        ensures
            status == INTERNAL_SERVER_ERROR,
    {
        INTERNAL_SERVER_ERROR
    }
}

} // verus!
