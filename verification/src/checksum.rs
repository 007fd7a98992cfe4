//! Checksums of the form `algorithm:hex`.
use vstd::prelude::*;

use crate::error::{ErrorView, UvrError};
use crate::text::{chars_of, has_prefix, is_text, starts_with};

verus! {

/// The SHA-256 digest of some bytes.
pub uninterp spec fn sha256(data: Seq<u8>) -> Seq<u8>;

/// The MD5 digest of some bytes.
pub uninterp spec fn md5(data: Seq<u8>) -> Seq<u8>;

/// The lower-case hexadecimal digit with the given value.
pub open spec fn hex_digit(n: u8) -> char {
    if n < 10 {
        ('0' as u8 + n) as char
    } else {
        ('a' as u8 + (n - 10)) as char
    }
}

/// The bytes in hexadecimal, two digits each.
pub open spec fn hex_text(data: Seq<u8>) -> Seq<char> {
    Seq::new(
        2 * data.len(),
        |i: int|
            if i % 2 == 0 {
                hex_digit(data[i / 2] / 16)
            } else {
                hex_digit(data[i / 2] % 16)
            },
    )
}

/// `sha2::Sha256::digest`: the digest, which is 32 bytes long.
#[verifier::external_body]
fn sha256_digest(data: &[u8]) -> (r: Vec<u8>)
    ensures
        r@ == sha256(data@),
        r@.len() == 32,
{
    <sha2::Sha256 as sha2::Digest>::digest(data).to_vec()
}

/// `md5::Md5::digest`: the digest, which is 16 bytes long.
#[verifier::external_body]
fn md5_digest(data: &[u8]) -> (r: Vec<u8>)
    ensures
        r@ == md5(data@),
        r@.len() == 16,
{
    <md5::Md5 as md5::Digest>::digest(data).to_vec()
}

/// `hex::encode`: two lower-case digits for each byte.
#[verifier::external_body]
fn hex_encode(data: &[u8]) -> (r: String)
    ensures
        r@ == hex_text(data@),
{
    hex::encode(data)
}

/// The SHA-256 checksum of some bytes.
pub open spec fn sha256_checksum(data: Seq<u8>) -> Seq<char> {
    "sha256:"@ + hex_text(sha256(data))
}

/// The MD5 checksum of some bytes.
pub open spec fn md5_checksum(data: Seq<u8>) -> Seq<char> {
    "md5:"@ + hex_text(md5(data))
}

/// The SHA-256 digest in hexadecimal: 64 digits.
pub fn sha256_hex_digest(data: &[u8]) -> (r: String)
    ensures
        r@ == hex_text(sha256(data@)),
        r@.len() == 64,
{
    hex_encode(sha256_digest(data).as_slice())
}

/// The MD5 digest in hexadecimal: 32 digits.
pub fn md5_hex_digest(data: &[u8]) -> (r: String)
    ensures
        r@ == hex_text(md5(data@)),
        r@.len() == 32,
{
    hex_encode(md5_digest(data).as_slice())
}

/// The checksum `sha256:<hex>` of the bytes.
pub fn sha256_hex(data: &[u8]) -> (r: String)
    ensures
        r@ == sha256_checksum(data@),
{
    "sha256:".to_owned().concat(sha256_hex_digest(data).as_str())
}

/// The checksum `md5:<hex>` of the bytes.
pub fn md5_hex(data: &[u8]) -> (r: String)
    ensures
        r@ == md5_checksum(data@),
{
    "md5:".to_owned().concat(md5_hex_digest(data).as_str())
}

/// What holding bytes against a checksum comes to, given both of their checksums.
pub open spec fn verdict(
    expected: Seq<char>,
    sha: Seq<char>,
    md: Seq<char>,
    package: Seq<char>,
) -> Result<(), ErrorView> {
    if !starts_with(expected, "sha256:"@) && !starts_with(expected, "md5:"@) {
        Err(ErrorView::Other("Unknown checksum algorithm in '"@ + expected + "'"@))
    } else {
        let actual = if starts_with(expected, "sha256:"@) {
            sha
        } else {
            md
        };
        if actual == expected {
            Ok(())
        } else {
            Err(ErrorView::ChecksumMismatch { package, expected, actual })
        }
    }
}

/// Holds the bytes of a package against the checksum `sha256:<hex>` or `md5:<hex>`.
pub fn verify(expected: &str, data: &[u8], package: &str) -> (r: Result<(), UvrError>)
    ensures
        match r {
            Ok(()) => verdict(expected@, sha256_checksum(data@), md5_checksum(data@), package@) is Ok,
            Err(e) => verdict(expected@, sha256_checksum(data@), md5_checksum(data@), package@) == Err::<
                (),
                ErrorView,
            >(e@),
        },
{
    let cs = chars_of(expected);
    let actual = if has_prefix(cs.as_slice(), "sha256:") {
        sha256_hex(data)
    } else if has_prefix(cs.as_slice(), "md5:") {
        md5_hex(data)
    } else {
        return Err(
            UvrError::Other("Unknown checksum algorithm in '".to_owned().concat(expected).concat("'")),
        );
    };
    if !is_text(cs.as_slice(), actual.as_str()) {
        return Err(
            UvrError::ChecksumMismatch { package: package.to_owned(), expected: expected.to_owned(), actual },
        );
    }
    Ok(())
}

/// Bytes agree with their own checksums.
pub proof fn own_checksum_is_accepted(data: Seq<u8>, package: Seq<char>)
    ensures
        verdict(sha256_checksum(data), sha256_checksum(data), md5_checksum(data), package) is Ok,
        verdict(md5_checksum(data), sha256_checksum(data), md5_checksum(data), package) is Ok,
{
    reveal_strlit("sha256:");
    reveal_strlit("md5:");
    let s = sha256_checksum(data);
    let m = md5_checksum(data);
    assert(s.subrange(0, 7) == "sha256:"@);
    assert(m.subrange(0, 4) == "md5:"@);
    assert(m[0] == 'm');
    if starts_with(m, "sha256:"@) {
        assert(m.subrange(0, 7)[0] == 's');
    }
}

/// What holding bytes against a checksum with a given prefix comes to depends on
/// the checksum of that kind alone, and nothing but that checksum is accepted.
pub proof fn only_own_checksum_is_accepted(
    expected: Seq<char>,
    sha: Seq<char>,
    md: Seq<char>,
    package: Seq<char>,
)
    ensures
        verdict(expected, sha, md, package) is Ok ==> expected == sha || expected == md,
{
}

} // verus!
