//! The content type of a blob: a closed set of image formats, each with a
//! numeric code that is stored in the index and a lowercase name that is shown
//! to people.

use crate::text::str_equal;
use imghdr::Type;
use vstd::prelude::*;
use vstd::slice::slice_to_vec;

verus! {

/// Stands for `imghdr::Type`, whose variants are read as they are declared.
#[verifier::external_type_specification]
pub struct ExType(Type);

/// The format that `imghdr::from_bytes` recognises in `bytes`, if any.
pub uninterp spec fn sniffed(bytes: Seq<u8>) -> Option<Type>;

/// An image format, or none where the format is unknown.
#[derive(Clone, Copy, Debug, Eq, Hash, Ord, PartialEq, PartialOrd)]
pub struct ImageType(Option<Type>);

impl View for ImageType {
    type V = Option<Type>;

    closed spec fn view(&self) -> Option<Type> {
        self.0
    }
}

/// The code under which a format is stored. Codes are assigned by hand and
/// never reused; 0 stands for an unknown format.
pub open spec fn code_of(kind: Option<Type>) -> u8 {
    match kind {
        None => 0,
        Some(Type::Bgp) => 1,
        Some(Type::Bmp) => 2,
        Some(Type::Exr) => 3,
        Some(Type::Flif) => 4,
        Some(Type::Gif) => 5,
        Some(Type::Ico) => 6,
        Some(Type::Jpeg) => 7,
        Some(Type::Pbm) => 8,
        Some(Type::Pgm) => 9,
        Some(Type::Png) => 10,
        Some(Type::Ppm) => 11,
        Some(Type::Rast) => 12,
        Some(Type::Rgb) => 13,
        Some(Type::Rgbe) => 14,
        Some(Type::Tiff) => 15,
        Some(Type::Webp) => 16,
        Some(Type::Xbm) => 17,
    }
}

/// The format stored under `code`, if the code is assigned.
pub open spec fn kind_of(code: u8) -> Option<Option<Type>> {
    if code == 0 {
        Some(None)
    } else if code == 1 {
        Some(Some(Type::Bgp))
    } else if code == 2 {
        Some(Some(Type::Bmp))
    } else if code == 3 {
        Some(Some(Type::Exr))
    } else if code == 4 {
        Some(Some(Type::Flif))
    } else if code == 5 {
        Some(Some(Type::Gif))
    } else if code == 6 {
        Some(Some(Type::Ico))
    } else if code == 7 {
        Some(Some(Type::Jpeg))
    } else if code == 8 {
        Some(Some(Type::Pbm))
    } else if code == 9 {
        Some(Some(Type::Pgm))
    } else if code == 10 {
        Some(Some(Type::Png))
    } else if code == 11 {
        Some(Some(Type::Ppm))
    } else if code == 12 {
        Some(Some(Type::Rast))
    } else if code == 13 {
        Some(Some(Type::Rgb))
    } else if code == 14 {
        Some(Some(Type::Rgbe))
    } else if code == 15 {
        Some(Some(Type::Tiff))
    } else if code == 16 {
        Some(Some(Type::Webp))
    } else if code == 17 {
        Some(Some(Type::Xbm))
    } else {
        None
    }
}

/// The lowercase name of a format; the empty string for an unknown one.
pub open spec fn name_of(kind: Option<Type>) -> Seq<char> {
    match kind {
        None => ""@,
        Some(Type::Bgp) => "bgp"@,
        Some(Type::Bmp) => "bmp"@,
        Some(Type::Exr) => "exr"@,
        Some(Type::Flif) => "flif"@,
        Some(Type::Gif) => "gif"@,
        Some(Type::Ico) => "ico"@,
        Some(Type::Jpeg) => "jpeg"@,
        Some(Type::Pbm) => "pbm"@,
        Some(Type::Pgm) => "pgm"@,
        Some(Type::Png) => "png"@,
        Some(Type::Ppm) => "ppm"@,
        Some(Type::Rast) => "rast"@,
        Some(Type::Rgb) => "rgb"@,
        Some(Type::Rgbe) => "rgbe"@,
        Some(Type::Tiff) => "tiff"@,
        Some(Type::Webp) => "webp"@,
        Some(Type::Xbm) => "xbm"@,
    }
}

/// The format that the name `name` is read as: the format that `name_of`
/// writes as that name.
pub open spec fn kind_named(name: Seq<char>) -> Option<Option<Type>> {
    if name == ""@ {
        Some(None)
    } else if name == "bgp"@ {
        Some(Some(Type::Bgp))
    } else if name == "bmp"@ {
        Some(Some(Type::Bmp))
    } else if name == "exr"@ {
        Some(Some(Type::Exr))
    } else if name == "flif"@ {
        Some(Some(Type::Flif))
    } else if name == "gif"@ {
        Some(Some(Type::Gif))
    } else if name == "ico"@ {
        Some(Some(Type::Ico))
    } else if name == "jpeg"@ {
        Some(Some(Type::Jpeg))
    } else if name == "pbm"@ {
        Some(Some(Type::Pbm))
    } else if name == "pgm"@ {
        Some(Some(Type::Pgm))
    } else if name == "png"@ {
        Some(Some(Type::Png))
    } else if name == "ppm"@ {
        Some(Some(Type::Ppm))
    } else if name == "rast"@ {
        Some(Some(Type::Rast))
    } else if name == "rgb"@ {
        Some(Some(Type::Rgb))
    } else if name == "rgbe"@ {
        Some(Some(Type::Rgbe))
    } else if name == "tiff"@ {
        Some(Some(Type::Tiff))
    } else if name == "webp"@ {
        Some(Some(Type::Webp))
    } else if name == "xbm"@ {
        Some(Some(Type::Xbm))
    } else {
        None
    }
}

/// The media type under which a format is served, for the formats that
/// browsers show.
pub open spec fn mime_of(kind: Option<Type>) -> Option<Seq<char>> {
    match kind {
        Some(Type::Bmp) => Some("image/bmp"@),
        Some(Type::Gif) => Some("image/gif"@),
        Some(Type::Ico) => Some("image/x-icon"@),
        Some(Type::Jpeg) => Some("image/jpeg"@),
        Some(Type::Png) => Some("image/png"@),
        Some(Type::Tiff) => Some("image/tiff"@),
        Some(Type::Webp) => Some("image/webp"@),
        _ => None,
    }
}

/// The place of a format among the formats: the unknown format first, then
/// the formats in the order in which `imghdr` declares them, which is the
/// order in which it compares them.
pub open spec fn rank_of(kind: Option<Type>) -> int {
    match kind {
        None => 0,
        Some(Type::Gif) => 1,
        Some(Type::Tiff) => 2,
        Some(Type::Rast) => 3,
        Some(Type::Xbm) => 4,
        Some(Type::Jpeg) => 5,
        Some(Type::Bmp) => 6,
        Some(Type::Png) => 7,
        Some(Type::Webp) => 8,
        Some(Type::Exr) => 9,
        Some(Type::Bgp) => 10,
        Some(Type::Pbm) => 11,
        Some(Type::Pgm) => 12,
        Some(Type::Ppm) => 13,
        Some(Type::Rgb) => 14,
        Some(Type::Rgbe) => 15,
        Some(Type::Flif) => 16,
        Some(Type::Ico) => 17,
    }
}

/// The first eight bytes are the PNG signature.
pub open spec fn has_png_signature(bytes: Seq<u8>) -> bool {
    &&& bytes.len() >= 8
    &&& bytes[0] == 0x89
    &&& bytes[1] == 0x50
    &&& bytes[2] == 0x4e
    &&& bytes[3] == 0x47
    &&& bytes[4] == 0x0d
    &&& bytes[5] == 0x0a
    &&& bytes[6] == 0x1a
    &&& bytes[7] == 0x0a
}

/// Bytes 6 to 9 spell `JFIF` or `Exif`.
pub open spec fn has_jpeg_marker(bytes: Seq<u8>) -> bool {
    &&& bytes.len() >= 10
    &&& {
        ||| bytes[6] == 0x4a && bytes[7] == 0x46 && bytes[8] == 0x49 && bytes[9] == 0x46
        ||| bytes[6] == 0x45 && bytes[7] == 0x78 && bytes[8] == 0x69 && bytes[9] == 0x66
    }
}

/// The first four bytes spell `RIFF`.
pub open spec fn has_riff_tag(bytes: Seq<u8>) -> bool {
    &&& bytes.len() >= 4
    &&& bytes[0] == 0x52
    &&& bytes[1] == 0x49
    &&& bytes[2] == 0x46
    &&& bytes[3] == 0x46
}

/// The header is long enough for every comparison that recognising its format
/// takes: eight bytes for a PNG signature; otherwise ten, and twelve where
/// the header starts with `RIFF` and carries no JPEG marker.
pub open spec fn sniffable(bytes: Seq<u8>) -> bool {
    ||| has_png_signature(bytes)
    ||| bytes.len() >= 10 && (has_jpeg_marker(bytes) || !has_riff_tag(bytes) || bytes.len() >= 12)
}

/// The header that is compared with the signatures: the bytes themselves
/// where they are long enough for every comparison, else the bytes filled
/// up to twelve with zero bytes, so that a signature which fits in the bytes
/// is found and one that does not fit is not.
pub open spec fn header(bytes: Seq<u8>) -> Seq<u8> {
    if sniffable(bytes) {
        bytes
    } else {
        bytes + Seq::new((12 - bytes.len()) as nat, |i: int| 0u8)
    }
}

/// The content type recorded for a blob, whatever its bytes: unknown below
/// eight bytes, else what its header is recognised as.
pub open spec fn detected(bytes: Seq<u8>) -> Option<Type> {
    if bytes.len() < 8 {
        None
    } else {
        sniffed(header(bytes))
    }
}

/// Calls `imghdr::from_bytes`, which compares the header with its table of
/// signatures. The result depends on `bytes` alone and is named `sniffed`.
/// The call reads up to twelve bytes without checking the length, so headers
/// that are too short for it are left out.
#[verifier::external_body]
fn sniff(bytes: &[u8]) -> (kind: Option<Type>)
    requires
        sniffable(bytes@),
    ensures
        kind == sniffed(bytes@),
{
    imghdr::from_bytes(bytes)
}

impl ImageType {
    #[must_use]
    pub fn new(image_type: Option<Type>) -> (result: Self)
        ensures
            result@ == image_type,
    {
        Self(image_type)
    }

    /// The unknown format.
    #[must_use]
    pub fn empty() -> (result: Self)
        ensures
            result@ is None,
    {
        Self(None)
    }

    #[must_use]
    pub fn value(self) -> (result: Option<Type>)
        ensures
            result == self@,
    {
        self.0
    }

    /// The lowercase name of the format.
    #[must_use]
    pub fn as_str(self) -> (name: &'static str)
        ensures
            name@ == name_of(self@),
    {
        match self.0 {
            None => "",
            Some(Type::Bgp) => "bgp",
            Some(Type::Bmp) => "bmp",
            Some(Type::Exr) => "exr",
            Some(Type::Flif) => "flif",
            Some(Type::Gif) => "gif",
            Some(Type::Ico) => "ico",
            Some(Type::Jpeg) => "jpeg",
            Some(Type::Pbm) => "pbm",
            Some(Type::Pgm) => "pgm",
            Some(Type::Png) => "png",
            Some(Type::Ppm) => "ppm",
            Some(Type::Rast) => "rast",
            Some(Type::Rgb) => "rgb",
            Some(Type::Rgbe) => "rgbe",
            Some(Type::Tiff) => "tiff",
            Some(Type::Webp) => "webp",
            Some(Type::Xbm) => "xbm",
        }
    }

    /// The media type to serve the format under, if it has one.
    #[must_use]
    pub fn mime_type(self) -> (mime: Option<&'static str>)
        ensures
            match mime {
                Some(name) => mime_of(self@) == Some(name@),
                None => mime_of(self@) is None,
            },
    {
        match self.0 {
            Some(Type::Bmp) => Some("image/bmp"),
            Some(Type::Gif) => Some("image/gif"),
            Some(Type::Ico) => Some("image/x-icon"),
            Some(Type::Jpeg) => Some("image/jpeg"),
            Some(Type::Png) => Some("image/png"),
            Some(Type::Tiff) => Some("image/tiff"),
            Some(Type::Webp) => Some("image/webp"),
            _ => None,
        }
    }

    /// The place of the format among the formats.
    #[must_use]
    pub fn rank(self) -> (rank: u8)
        ensures
            rank == rank_of(self@),
    {
        match self.0 {
            None => 0,
            Some(Type::Gif) => 1,
            Some(Type::Tiff) => 2,
            Some(Type::Rast) => 3,
            Some(Type::Xbm) => 4,
            Some(Type::Jpeg) => 5,
            Some(Type::Bmp) => 6,
            Some(Type::Png) => 7,
            Some(Type::Webp) => 8,
            Some(Type::Exr) => 9,
            Some(Type::Bgp) => 10,
            Some(Type::Pbm) => 11,
            Some(Type::Pgm) => 12,
            Some(Type::Ppm) => 13,
            Some(Type::Rgb) => 14,
            Some(Type::Rgbe) => 15,
            Some(Type::Flif) => 16,
            Some(Type::Ico) => 17,
        }
    }

    /// The code under which the format is stored.
    #[must_use]
    pub fn code(self) -> (code: u8)
        ensures
            code == code_of(self@),
    {
        match self.0 {
            None => 0,
            Some(Type::Bgp) => 1,
            Some(Type::Bmp) => 2,
            Some(Type::Exr) => 3,
            Some(Type::Flif) => 4,
            Some(Type::Gif) => 5,
            Some(Type::Ico) => 6,
            Some(Type::Jpeg) => 7,
            Some(Type::Pbm) => 8,
            Some(Type::Pgm) => 9,
            Some(Type::Png) => 10,
            Some(Type::Ppm) => 11,
            Some(Type::Rast) => 12,
            Some(Type::Rgb) => 13,
            Some(Type::Rgbe) => 14,
            Some(Type::Tiff) => 15,
            Some(Type::Webp) => 16,
            Some(Type::Xbm) => 17,
        }
    }

    /// The format stored under `code`, if the code is assigned.
    #[must_use]
    pub fn from_code(code: u8) -> (result: Option<Self>)
        ensures
            match result {
                Some(image_type) => kind_of(code) == Some(image_type@),
                None => kind_of(code) is None,
            },
    {
        match code {
            0 => Some(Self(None)),
            1 => Some(Self(Some(Type::Bgp))),
            2 => Some(Self(Some(Type::Bmp))),
            3 => Some(Self(Some(Type::Exr))),
            4 => Some(Self(Some(Type::Flif))),
            5 => Some(Self(Some(Type::Gif))),
            6 => Some(Self(Some(Type::Ico))),
            7 => Some(Self(Some(Type::Jpeg))),
            8 => Some(Self(Some(Type::Pbm))),
            9 => Some(Self(Some(Type::Pgm))),
            10 => Some(Self(Some(Type::Png))),
            11 => Some(Self(Some(Type::Ppm))),
            12 => Some(Self(Some(Type::Rast))),
            13 => Some(Self(Some(Type::Rgb))),
            14 => Some(Self(Some(Type::Rgbe))),
            15 => Some(Self(Some(Type::Tiff))),
            16 => Some(Self(Some(Type::Webp))),
            17 => Some(Self(Some(Type::Xbm))),
            _ => None,
        }
    }

    /// Reads a lowercase name. A name that is not read comes back as the
    /// error.
    pub fn from_str(s: &str) -> (result: Result<Self, String>)
        ensures
            match result {
                Ok(image_type) => kind_named(s@) == Some(image_type@),
                Err(other) => kind_named(s@) is None && other@ == s@,
            },
    {
        if str_equal(s, "") {
            Ok(Self(None))
        } else if str_equal(s, "bgp") {
            Ok(Self(Some(Type::Bgp)))
        } else if str_equal(s, "bmp") {
            Ok(Self(Some(Type::Bmp)))
        } else if str_equal(s, "exr") {
            Ok(Self(Some(Type::Exr)))
        } else if str_equal(s, "flif") {
            Ok(Self(Some(Type::Flif)))
        } else if str_equal(s, "gif") {
            Ok(Self(Some(Type::Gif)))
        } else if str_equal(s, "ico") {
            Ok(Self(Some(Type::Ico)))
        } else if str_equal(s, "jpeg") {
            Ok(Self(Some(Type::Jpeg)))
        } else if str_equal(s, "pbm") {
            Ok(Self(Some(Type::Pbm)))
        } else if str_equal(s, "pgm") {
            Ok(Self(Some(Type::Pgm)))
        } else if str_equal(s, "png") {
            Ok(Self(Some(Type::Png)))
        } else if str_equal(s, "ppm") {
            Ok(Self(Some(Type::Ppm)))
        } else if str_equal(s, "rast") {
            Ok(Self(Some(Type::Rast)))
        } else if str_equal(s, "rgb") {
            Ok(Self(Some(Type::Rgb)))
        } else if str_equal(s, "rgbe") {
            Ok(Self(Some(Type::Rgbe)))
        } else if str_equal(s, "tiff") {
            Ok(Self(Some(Type::Tiff)))
        } else if str_equal(s, "webp") {
            Ok(Self(Some(Type::Webp)))
        } else if str_equal(s, "xbm") {
            Ok(Self(Some(Type::Xbm)))
        } else {
            Err(s.to_owned())
        }
    }

    /// Whether the header of `bytes` is long enough to be compared with
    /// every signature that applies to it.
    pub fn can_sniff(bytes: &[u8]) -> (possible: bool)
        ensures
            possible == sniffable(bytes@),
    {
        let n = bytes.len();
        let png = n >= 8 && bytes[0] == 0x89 && bytes[1] == 0x50 && bytes[2] == 0x4e && bytes[3]
            == 0x47 && bytes[4] == 0x0d && bytes[5] == 0x0a && bytes[6] == 0x1a && bytes[7] == 0x0a;
        if png {
            return true;
        }
        if n < 10 {
            return false;
        }
        let jfif = bytes[6] == 0x4a && bytes[7] == 0x46 && bytes[8] == 0x49 && bytes[9] == 0x46;
        let exif = bytes[6] == 0x45 && bytes[7] == 0x78 && bytes[8] == 0x69 && bytes[9] == 0x66;
        let riff = bytes[0] == 0x52 && bytes[1] == 0x49 && bytes[2] == 0x46 && bytes[3] == 0x46;
        jfif || exif || !riff || n >= 12
    }

    /// The content type of a blob, whatever its bytes: unknown below eight
    /// bytes, else what the header is recognised as. A header that is too
    /// short for some comparison is filled up with zero bytes first.
    pub fn detect(bytes: &[u8]) -> (result: Self)
        ensures
            result@ == detected(bytes@),
    {
        if bytes.len() < 8 {
            Self(None)
        } else if Self::can_sniff(bytes) {
            Self(sniff(bytes))
        } else {
            let mut filled = slice_to_vec(bytes);
            while filled.len() < 12
                invariant
                    bytes@.len() <= filled@.len() <= 12,
                    filled@ == bytes@ + Seq::new(
                        (filled@.len() - bytes@.len()) as nat,
                        |i: int| 0u8,
                    ),
                decreases 12 - filled@.len(),
            {
                let ghost before = filled@;
                filled.push(0);
                assert(filled@ =~= bytes@ + Seq::new(
                    (filled@.len() - bytes@.len()) as nat,
                    |i: int| 0u8,
                ));
            }
            Self(sniff(filled.as_slice()))
        }
    }
}

/// A format read back from its code is the format that was stored, and no
/// two formats share a code.
pub proof fn lemma_code_round_trip(kind: Option<Type>)
    ensures
        kind_of(code_of(kind)) == Some(kind),
        code_of(kind) <= 17,
{
}

/// The name of a format is read back as the format, so that no two formats
/// share a name.
pub proof fn lemma_name_round_trip(kind: Option<Type>)
    ensures
        kind_named(name_of(kind)) == Some(kind),
{
    reveal_strlit("");
    reveal_strlit("bgp");
    reveal_strlit("bmp");
    reveal_strlit("exr");
    reveal_strlit("flif");
    reveal_strlit("gif");
    reveal_strlit("ico");
    reveal_strlit("jpeg");
    reveal_strlit("pbm");
    reveal_strlit("pgm");
    reveal_strlit("png");
    reveal_strlit("ppm");
    reveal_strlit("rast");
    reveal_strlit("rgb");
    reveal_strlit("rgbe");
    reveal_strlit("tiff");
    reveal_strlit("webp");
    reveal_strlit("xbm");
    assert(""@.len() == 0);
    assert("bgp"@.len() == 3 && "bgp"@[0] == 'b' && "bgp"@[1] == 'g' && "bgp"@[2] == 'p');
    assert("bmp"@.len() == 3 && "bmp"@[0] == 'b' && "bmp"@[1] == 'm' && "bmp"@[2] == 'p');
    assert("exr"@.len() == 3 && "exr"@[0] == 'e' && "exr"@[1] == 'x' && "exr"@[2] == 'r');
    assert("flif"@.len() == 4 && "flif"@[0] == 'f' && "flif"@[1] == 'l' && "flif"@[2] == 'i' && "flif"@[3] == 'f');
    assert("gif"@.len() == 3 && "gif"@[0] == 'g' && "gif"@[1] == 'i' && "gif"@[2] == 'f');
    assert("ico"@.len() == 3 && "ico"@[0] == 'i' && "ico"@[1] == 'c' && "ico"@[2] == 'o');
    assert("jpeg"@.len() == 4 && "jpeg"@[0] == 'j' && "jpeg"@[1] == 'p' && "jpeg"@[2] == 'e' && "jpeg"@[3] == 'g');
    assert("pbm"@.len() == 3 && "pbm"@[0] == 'p' && "pbm"@[1] == 'b' && "pbm"@[2] == 'm');
    assert("pgm"@.len() == 3 && "pgm"@[0] == 'p' && "pgm"@[1] == 'g' && "pgm"@[2] == 'm');
    assert("png"@.len() == 3 && "png"@[0] == 'p' && "png"@[1] == 'n' && "png"@[2] == 'g');
    assert("ppm"@.len() == 3 && "ppm"@[0] == 'p' && "ppm"@[1] == 'p' && "ppm"@[2] == 'm');
    assert("rast"@.len() == 4 && "rast"@[0] == 'r' && "rast"@[1] == 'a' && "rast"@[2] == 's' && "rast"@[3] == 't');
    assert("rgb"@.len() == 3 && "rgb"@[0] == 'r' && "rgb"@[1] == 'g' && "rgb"@[2] == 'b');
    assert("rgbe"@.len() == 4 && "rgbe"@[0] == 'r' && "rgbe"@[1] == 'g' && "rgbe"@[2] == 'b' && "rgbe"@[3] == 'e');
    assert("tiff"@.len() == 4 && "tiff"@[0] == 't' && "tiff"@[1] == 'i' && "tiff"@[2] == 'f' && "tiff"@[3] == 'f');
    assert("webp"@.len() == 4 && "webp"@[0] == 'w' && "webp"@[1] == 'e' && "webp"@[2] == 'b' && "webp"@[3] == 'p');
    assert("xbm"@.len() == 3 && "xbm"@[0] == 'x' && "xbm"@[1] == 'b' && "xbm"@[2] == 'm');
}

/// Every assigned code is the code of the format it is read as.
pub proof fn lemma_code_of_kind(code: u8)
    ensures
        kind_of(code) matches Some(kind) ==> code_of(kind) == code,
        kind_of(code) is None <==> code > 17,
{
}

} // verus!
