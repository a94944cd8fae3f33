//! Content digests and their hexadecimal names.
//!
//! A blob is identified by the 128-bit MD5 digest of its bytes. On disk and in
//! URLs the digest is written as 32 lowercase hexadecimal characters.

use vstd::prelude::*;
use vstd::string::StringExecFns;

verus! {

/// The MD5 digest of a byte sequence, as computed by `md5::compute`.
///
/// Nothing is stated of its value beyond what the functions below say of it.
pub uninterp spec fn md5_of(bytes: Seq<u8>) -> Seq<u8>;

/// Stands for `hex::FromHexError`, whose three variants are read as they are
/// declared.
#[verifier::external_type_specification]
pub struct ExFromHexError(hex::FromHexError);

/// A 128-bit content hash.
#[derive(Clone, Copy, Debug, PartialEq, Eq, Hash)]
pub struct Digest(pub [u8; 16]);

impl View for Digest {
    type V = Seq<u8>;

    open spec fn view(&self) -> Seq<u8> {
        self.0@
    }
}

/// Number of characters in the hexadecimal form of a digest.
pub const HEX_LENGTH: usize = 32;

/// The lowercase hexadecimal character for a value below 16.
pub open spec fn hex_digit(n: int) -> char {
    if n < 10 {
        (n + 48) as char
    } else {
        (n + 87) as char
    }
}

/// The lowercase hexadecimal form of `bytes`: two characters per byte, high
/// half first.
pub open spec fn hex_lower(bytes: Seq<u8>) -> Seq<char> {
    Seq::new(
        2 * bytes.len(),
        |i: int|
            hex_digit(
                if i % 2 == 0 {
                    bytes[i / 2] as int / 16
                } else {
                    bytes[i / 2] as int % 16
                },
            ),
    )
}

/// The value of one hexadecimal character, in either case.
pub open spec fn hex_value(c: u8) -> Option<int> {
    if 48 <= c <= 57 {
        Some(c - 48)
    } else if 97 <= c <= 102 {
        Some(c - 87)
    } else if 65 <= c <= 70 {
        Some(c - 55)
    } else {
        None
    }
}

/// Every byte of `text` is a hexadecimal character.
pub open spec fn is_hex(text: Seq<u8>) -> bool {
    forall|i: int| 0 <= i < text.len() ==> (#[trigger] hex_value(text[i])) is Some
}

/// The bytes that the hexadecimal text `text` stands for.
pub open spec fn unhex(text: Seq<u8>) -> Seq<u8> {
    Seq::new(
        text.len() / 2,
        |i: int| (hex_value(text[2 * i])->0 * 16 + hex_value(text[2 * i + 1])->0) as u8,
    )
}

/// `index` is the first position of `text` that holds no hexadecimal character.
pub open spec fn first_non_hex(text: Seq<u8>, index: int) -> bool {
    &&& 0 <= index < text.len()
    &&& hex_value(text[index]) is None
    &&& is_hex(text.take(index))
}

/// What decoding `text` into a 16-byte digest gives: the digest, or the reason
/// why `text` is not the name of one.
pub open spec fn decodes_to(text: Seq<u8>, result: Result<[u8; 16], hex::FromHexError>) -> bool {
    match result {
        Ok(bytes) => text.len() == HEX_LENGTH && is_hex(text) && bytes@ == unhex(text),
        Err(hex::FromHexError::OddLength) => text.len() % 2 != 0,
        Err(hex::FromHexError::InvalidStringLength) => text.len() % 2 == 0 && text.len()
            != HEX_LENGTH,
        Err(hex::FromHexError::InvalidHexCharacter { c, index }) => {
            &&& text.len() == HEX_LENGTH
            &&& first_non_hex(text, index as int)
            &&& c == text[index as int] as char
        },
    }
}

/// Calls `md5::compute`. The result is the MD5 digest of `bytes`, named
/// `md5_of`: the same bytes always give the same digest.
#[verifier::external_body]
fn md5_compute(bytes: &[u8]) -> (digest: [u8; 16])
    ensures
        digest@ == md5_of(bytes@),
{
    md5::compute(bytes).0
}

/// Calls `<[u8; 16] as hex::FromHex>::from_hex`. It succeeds exactly on 32
/// hexadecimal characters of either case and then gives the 16 bytes they
/// spell. It fails with `OddLength` on an odd length, else with
/// `InvalidStringLength` on a length other than 32, else with
/// `InvalidHexCharacter` for the first character that is not hexadecimal.
#[verifier::external_body]
fn hex_decode(text: &[u8]) -> (result: Result<[u8; 16], hex::FromHexError>)
    ensures
        decodes_to(text@, result),
{
    <[u8; 16] as hex::FromHex>::from_hex(text)
}

/// One lowercase hexadecimal character as a string.
fn digit(n: u8) -> (s: &'static str)
    requires
        n < 16,
    ensures
        s@ == seq![hex_digit(n as int)],
{
    proof {
        reveal_strlit("0");
        reveal_strlit("1");
        reveal_strlit("2");
        reveal_strlit("3");
        reveal_strlit("4");
        reveal_strlit("5");
        reveal_strlit("6");
        reveal_strlit("7");
        reveal_strlit("8");
        reveal_strlit("9");
        reveal_strlit("a");
        reveal_strlit("b");
        reveal_strlit("c");
        reveal_strlit("d");
        reveal_strlit("e");
        reveal_strlit("f");
    }
    let s = match n {
        0 => "0",
        1 => "1",
        2 => "2",
        3 => "3",
        4 => "4",
        5 => "5",
        6 => "6",
        7 => "7",
        8 => "8",
        9 => "9",
        10 => "a",
        11 => "b",
        12 => "c",
        13 => "d",
        14 => "e",
        _ => "f",
    };
    assert(s@ =~= seq![hex_digit(n as int)]);
    s
}

impl Digest {
    /// The digest of `bytes`.
    pub fn compute(bytes: &[u8]) -> (digest: Digest)
        ensures
            digest@ == md5_of(bytes@),
    {
        Digest(md5_compute(bytes))
    }

    /// The digest that `text` names, if `text` is 32 hexadecimal characters.
    pub fn from_hex(text: &[u8]) -> (result: Result<Digest, hex::FromHexError>)
        ensures
            decodes_to(
                text@,
                match result {
                    Ok(digest) => Ok(digest.0),
                    Err(error) => Err(error),
                },
            ),
    {
        match hex_decode(text) {
            Ok(bytes) => Ok(Digest(bytes)),
            Err(error) => Err(error),
        }
    }

    /// The 32 lowercase hexadecimal characters that name this digest.
    pub fn to_hex(&self) -> (text: String)
        ensures
            text@ == hex_lower(self@),
    {
        let mut text = String::new();
        let mut i: usize = 0;
        while i < 16
            invariant
                i <= 16,
                self@.len() == 16,
                text@.len() == 2 * i,
                forall|j: int| 0 <= j < 2 * i ==> text@[j] == hex_lower(self@)[j],
            decreases 16 - i,
        {
            let byte = self.0[i];
            text.append(digit(byte / 16));
            text.append(digit(byte % 16));
            i += 1;
        }
        assert(text@ =~= hex_lower(self@));
        text
    }

    /// Whether two digests are the same sixteen bytes.
    pub fn same(&self, other: &Digest) -> (equal: bool)
        ensures
            equal == (self@ == other@),
    {
        let mut i: usize = 0;
        while i < 16
            invariant
                i <= 16,
                self@.len() == 16,
                other@.len() == 16,
                forall|j: int| 0 <= j < i ==> self@[j] == other@[j],
            decreases 16 - i,
        {
            if self.0[i] != other.0[i] {
                return false;
            }
            i += 1;
        }
        assert(self@ =~= other@);
        true
    }
}

} // verus!
