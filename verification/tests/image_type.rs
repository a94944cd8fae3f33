use image_scraper::image_type::ImageType;
use imghdr::Type;

const ALL: [(u8, &str, Type); 17] = [
    (1, "bgp", Type::Bgp),
    (2, "bmp", Type::Bmp),
    (3, "exr", Type::Exr),
    (4, "flif", Type::Flif),
    (5, "gif", Type::Gif),
    (6, "ico", Type::Ico),
    (7, "jpeg", Type::Jpeg),
    (8, "pbm", Type::Pbm),
    (9, "pgm", Type::Pgm),
    (10, "png", Type::Png),
    (11, "ppm", Type::Ppm),
    (12, "rast", Type::Rast),
    (13, "rgb", Type::Rgb),
    (14, "rgbe", Type::Rgbe),
    (15, "tiff", Type::Tiff),
    (16, "webp", Type::Webp),
    (17, "xbm", Type::Xbm),
];

#[test]
fn every_format_has_its_code_and_name() {
    for (code, name, kind) in ALL {
        let image_type = ImageType::new(Some(kind));
        assert_eq!(image_type.value(), Some(kind));
        assert_eq!(image_type.code(), code);
        assert_eq!(image_type.as_str(), name);
        assert_eq!(ImageType::from_code(code), Some(image_type));
    }
    assert_eq!(ImageType::empty().value(), None);
    assert_eq!(ImageType::empty().code(), 0);
    assert_eq!(ImageType::empty().as_str(), "");
    assert_eq!(ImageType::from_code(0), Some(ImageType::empty()));
    assert_eq!(ImageType::new(None), ImageType::empty());
}

#[test]
fn unassigned_codes_are_no_format() {
    for code in 18..=255u8 {
        assert_eq!(ImageType::from_code(code), None);
    }
}

#[test]
fn names_are_read_back() {
    for (_, name, kind) in ALL {
        assert_eq!(ImageType::from_str(name), Ok(ImageType::new(Some(kind))));
        assert_eq!(ImageType::from_str(ImageType::new(Some(kind)).as_str()).unwrap().value(), Some(kind));
    }
    assert_eq!(ImageType::from_str(""), Ok(ImageType::empty()));
}

#[test]
fn other_names_come_back_as_the_error() {
    for name in ["PNG", "jpg", " png", "png ", "pn", "pngx", "image/png", "é"] {
        assert_eq!(ImageType::from_str(name), Err(name.to_string()));
    }
}

#[test]
fn formats_that_browsers_show_have_a_media_type() {
    for (_, _, kind) in ALL {
        let expected = match kind {
            Type::Bmp => Some("image/bmp"),
            Type::Gif => Some("image/gif"),
            Type::Ico => Some("image/x-icon"),
            Type::Jpeg => Some("image/jpeg"),
            Type::Png => Some("image/png"),
            Type::Tiff => Some("image/tiff"),
            Type::Webp => Some("image/webp"),
            _ => None,
        };
        assert_eq!(ImageType::new(Some(kind)).mime_type(), expected);
    }
    assert_eq!(ImageType::empty().mime_type(), None);
    assert_eq!(mime::IMAGE_BMP.essence_str(), "image/bmp");
    assert_eq!(mime::IMAGE_GIF.essence_str(), "image/gif");
    assert_eq!(mime::IMAGE_JPEG.essence_str(), "image/jpeg");
    assert_eq!(mime::IMAGE_PNG.essence_str(), "image/png");
}

#[test]
fn headers_are_recognised() {
    assert_eq!(ImageType::detect(b"GIF89a 12345").value(), Some(Type::Gif));
    assert_eq!(ImageType::detect(b"GIF87a 12345").value(), Some(Type::Gif));
    assert_eq!(ImageType::detect(b"BM0000000000").value(), Some(Type::Bmp));
    assert_eq!(ImageType::detect(b"\x89PNG\r\n\x1a\n").value(), Some(Type::Png));
    assert_eq!(ImageType::detect(b"\xff\xd8\xff\xe0\x00\x10JFIF\x00").value(), Some(Type::Jpeg));
    assert_eq!(ImageType::detect(b"\xff\xd8\xff\xe1\x00\x10Exif\x00").value(), Some(Type::Jpeg));
    assert_eq!(ImageType::detect(b"RIFF\x00\x00\x00\x00WEBP").value(), Some(Type::Webp));
    assert_eq!(ImageType::detect(b"P1 000000000").value(), Some(Type::Pbm));
    assert_eq!(ImageType::detect(b"foo bar baz").value(), None);
    assert_eq!(ImageType::detect(b"").value(), None);
    assert_eq!(ImageType::detect(b"GIF89a").value(), None);
    assert_eq!(ImageType::detect(b"BM00000").value(), None);
}

#[test]
fn what_can_be_sniffed_is_what_does_not_overrun() {
    assert!(!ImageType::can_sniff(b""));
    assert!(!ImageType::can_sniff(b"1234567"));
    assert!(ImageType::can_sniff(b"\x89PNG\r\n\x1a\n"));
    assert!(!ImageType::can_sniff(b"\x89PNG\r\n\x1a\r"));
    assert!(!ImageType::can_sniff(b"123456789"));
    assert!(ImageType::can_sniff(b"1234567890"));
    assert!(!ImageType::can_sniff(b"RIFF5678901"));
    assert!(ImageType::can_sniff(b"RIFF56Exif1"));
    assert!(ImageType::can_sniff(b"RIFF56789012"));
    assert!(ImageType::can_sniff(b"RIF_5678901"));
}

#[test]
fn a_short_header_is_compared_with_the_signatures_that_fit() {
    let unknown: [&[u8]; 9] = [
        b"",
        b"GIF89a7",
        b"12345678",
        b"123456789",
        b"123456JF",
        b"123456JFI",
        b"RIFF567890",
        b"RIFF5678WEB",
        b"\x89PNG\r\n\x1a\r",
    ];
    for bytes in unknown {
        assert_eq!(ImageType::detect(bytes), ImageType::empty());
    }
    assert_eq!(ImageType::detect(b"GIF89a78").value(), Some(Type::Gif));
    assert_eq!(ImageType::detect(b"GIF87a789").value(), Some(Type::Gif));
    assert_eq!(ImageType::detect(b"BM345678").value(), Some(Type::Bmp));
    assert_eq!(ImageType::detect(b"II345678").value(), Some(Type::Tiff));
    assert_eq!(ImageType::detect(b"P1 45678").value(), Some(Type::Pbm));
    assert_eq!(ImageType::detect(b"#define ").value(), Some(Type::Xbm));
    assert_eq!(ImageType::detect(b"\x00\x00\x01\x005678").value(), Some(Type::Ico));
    assert_eq!(ImageType::detect(b"\x89PNG\r\n\x1a\n").value(), Some(Type::Png));
    assert_eq!(ImageType::detect(b"123456JFIF").value(), Some(Type::Jpeg));
    assert_eq!(ImageType::detect(b"RIFF56Exif1").value(), Some(Type::Jpeg));
    assert_eq!(ImageType::detect(b"RIFF5678WEBP").value(), Some(Type::Webp));
    assert_eq!(ImageType::detect(b"RIFF5678WEBP and more").value(), Some(Type::Webp));
}
