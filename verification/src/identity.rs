//! Stable identifiers: the lowercase hexadecimal SHA-1 digest of a text.

use sha1::{Digest, Sha1};
use crate::text::{
    decimal_of_u64, decimal_text, decimal_value, is_digit, lemma_decimal_text, string_of,
};
use vstd::prelude::*;
use vstd::string::{StrSliceExecFns, StringExecFns};

verus! {

/// The SHA-1 digest of the UTF-8 encoding of a text.
pub uninterp spec fn sha1_digest(text: Seq<char>) -> Seq<u8>;

/// `Sha1::digest` hashes the bytes of `text` in one shot; the digest is a
/// function of those bytes alone, and it has twenty bytes, the output size
/// that the crate fixes for SHA-1. Nothing else is claimed of it.
#[verifier::external_body]
fn digest_of(text: &str) -> (r: Vec<u8>)
    ensures
        r@ == sha1_digest(text@),
        r@.len() == 20,
{
    Sha1::digest(text.as_bytes()).to_vec()
}

/// The lowercase hexadecimal digit of a value below sixteen.
pub open spec fn hex_digit(nibble: u8) -> char {
    if nibble < 10 {
        (48 + nibble) as char
    } else {
        (87 + nibble) as char
    }
}

/// Two lowercase hexadecimal digits for each byte, high nibble first.
pub open spec fn hex_text(bytes: Seq<u8>) -> Seq<char> {
    Seq::new(
        2 * bytes.len(),
        |i: int|
            if i % 2 == 0 {
                hex_digit(bytes[i / 2] / 16)
            } else {
                hex_digit(bytes[i / 2] % 16)
            },
    )
}

/// The identifier derived from a text: equal texts give equal identifiers.
pub open spec fn stable_id(text: Seq<char>) -> Seq<char> {
    hex_text(sha1_digest(text))
}

/// The text from which an album's identifier is derived: the length of
/// the title in decimal, the title and the artist, each followed by a colon
/// but the last. No two pairs of title and artist give the same text.
pub open spec fn album_key_text(title: Seq<char>, artist: Seq<char>) -> Seq<char> {
    decimal_text(title.len()) + seq![':'] + title + seq![':'] + artist
}

/// Different albums have different key texts: the key text determines the
/// title and the artist.
pub proof fn lemma_album_key_injective(
    title: Seq<char>,
    artist: Seq<char>,
    other_title: Seq<char>,
    other_artist: Seq<char>,
)
    requires
        album_key_text(title, artist) == album_key_text(other_title, other_artist),
    ensures
        title == other_title,
        artist == other_artist,
{
    let key = album_key_text(title, artist);
    let other = album_key_text(other_title, other_artist);
    let digits = decimal_text(title.len());
    let other_digits = decimal_text(other_title.len());
    lemma_decimal_text(title.len());
    lemma_decimal_text(other_title.len());
    let p = digits.len() as int;
    let q = other_digits.len() as int;
    assert(key[p] == ':');
    assert(other[q] == ':');
    assert(!is_digit(':'));
    if p < q {
        assert(other[p] == other_digits[p]);
        assert(is_digit(other_digits[p]));
    }
    if q < p {
        assert(key[q] == digits[q]);
        assert(is_digit(digits[q]));
    }
    assert(p == q);
    assert(digits =~= key.subrange(0, p));
    assert(other_digits =~= other.subrange(0, p));
    assert(decimal_value(digits) == decimal_value(other_digits));
    let n = title.len() as int;
    assert(n == other_title.len());
    assert(title =~= key.subrange(p + 1, p + 1 + n));
    assert(other_title =~= other.subrange(p + 1, p + 1 + n));
    assert(artist =~= key.subrange(p + 2 + n, key.len() as int));
    assert(other_artist =~= other.subrange(p + 2 + n, other.len() as int));
}

fn hex_digit_of(nibble: u8) -> (r: char)
    requires
        nibble < 16,
    ensures
        r == hex_digit(nibble),
{
    if nibble < 10 {
        (48 + nibble) as char
    } else {
        (87 + nibble) as char
    }
}

/// Renders bytes as lowercase hexadecimal text.
pub fn hex_of(bytes: &Vec<u8>) -> (r: String)
    ensures
        r@ == hex_text(bytes@),
{
    let mut out = String::new();
    let mut i: usize = 0;
    while i < bytes.len()
        invariant
            i <= bytes.len(),
            out@ == hex_text(bytes@.take(i as int)),
        decreases bytes.len() - i,
    {
        let b: u8 = bytes[i];
        out.push(hex_digit_of(b / 16));
        out.push(hex_digit_of(b % 16));
        assert(out@ =~= hex_text(bytes@.take(i + 1)));
        i += 1;
    }
    assert(bytes@.take(bytes.len() as int) == bytes@);
    out
}

/// The stable identifier of a text: the hexadecimal SHA-1 digest of its
/// UTF-8 encoding.
pub fn stable_id_of(text: &str) -> (r: String)
    ensures
        r@ == stable_id(text@),
        r@.len() == 40,
{
    let digest = digest_of(text);
    hex_of(&digest)
}

/// The identifier of the album with the given title and artist.
pub fn album_id_of(title: &str, artist: &str) -> (r: String)
    ensures
        r@ == stable_id(album_key_text(title@, artist@)),
        r@.len() == 40,
{
    let digits = decimal_of_u64(title.unicode_len() as u64);
    let mut key = string_of(&digits);
    key.push(':');
    key.append(title);
    key.push(':');
    key.append(artist);
    assert(key@ =~= album_key_text(title@, artist@));
    stable_id_of(key.as_str())
}

} // verus!
