use image_scraper::digest::Digest;

#[test]
fn empty_bytes_have_the_known_digest() {
    let digest = Digest::compute(&[]);
    assert_eq!(digest.to_hex(), "d41d8cd98f00b204e9800998ecf8427e");
}

#[test]
fn hex_names_are_read_back() {
    let digest = Digest::compute(b"foo bar baz");
    assert_eq!(digest.to_hex(), "ab07acbb1e496801937adfa772424bf7");
    let read = Digest::from_hex(digest.to_hex().as_bytes()).unwrap();
    assert_eq!(read, digest);
}
