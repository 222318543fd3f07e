//! The calls into outside crates (and into parts of std that vstd does not
//! specify) that the library's logic makes, each behind a contract that is
//! trusted rather than proved.
use base64::Engine;
use sha2::Digest;
use std::io::Read;
use vstd::prelude::*;
use vstd::string::StringSliceAdditionalSpecFns;
use vstd::utf8::{decode_utf8, encode_utf8, is_char_boundary, valid_utf8};

verus! {

/// The bytes that the `base64` crate's standard engine (`STANDARD`: standard
/// alphabet, padding required) decodes from `text`, or `None` where it
/// reports an error.
pub uninterp spec fn base64_decoded(text: Seq<char>) -> Option<Seq<u8>>;

/// Calls `base64::prelude::BASE64_STANDARD.decode`. Trusted: the result is
/// `base64_decoded` of the text, and `None` exactly where the crate returns
/// an error.
#[verifier::external_body]
pub(crate) fn base64_standard_decode(text: &str) -> (r: Option<Vec<u8>>)
    ensures
        match r {
            Some(v) => base64_decoded(text@) == Some(v@),
            None => base64_decoded(text@) is None,
        },
{
    base64::prelude::BASE64_STANDARD.decode(text).ok()
}

/// The character of a six-bit value in the standard base64 alphabet
/// (`A`-`Z`, `a`-`z`, `0`-`9`, `+`, `/`).
pub open spec fn base64_symbol(n: int) -> u8 {
    if n < 26 {
        (65 + n) as u8
    } else if n < 52 {
        (71 + n) as u8
    } else if n < 62 {
        (n - 4) as u8
    } else if n == 62 {
        43u8
    } else {
        47u8
    }
}

/// The bytes of the standard base64 text of `data` without padding: each
/// three bytes become four characters, and a last one or two bytes become
/// two or three.
pub open spec fn base64_no_pad_encoded(data: Seq<u8>) -> Seq<u8>
    decreases data.len(),
{
    if data.len() == 0 {
        seq![]
    } else {
        let a = data[0] as int;
        let b = if data.len() > 1 { data[1] as int } else { 0 };
        let c = if data.len() > 2 { data[2] as int } else { 0 };
        if data.len() == 1 {
            seq![base64_symbol(a / 4), base64_symbol((a % 4) * 16)]
        } else if data.len() == 2 {
            seq![base64_symbol(a / 4), base64_symbol((a % 4) * 16 + b / 16), base64_symbol((b % 16) * 4)]
        } else {
            seq![
                base64_symbol(a / 4),
                base64_symbol((a % 4) * 16 + b / 16),
                base64_symbol((b % 16) * 4 + c / 64),
                base64_symbol(c % 64),
            ] + base64_no_pad_encoded(data.skip(3))
        }
    }
}

/// Calls `base64::prelude::BASE64_STANDARD_NO_PAD.encode`. Trusted, as the
/// crate documents its standard engine without padding: the bytes of the
/// returned text are `base64_no_pad_encoded` of the input.
#[verifier::external_body]
pub(crate) fn base64_no_pad_encode(data: &[u8]) -> (r: Vec<u8>)
    ensures
        r@ == base64_no_pad_encoded(data@),
{
    base64::prelude::BASE64_STANDARD_NO_PAD.encode(data).into_bytes()
}

/// What `read_to_end` on a `flate2::read::GzDecoder` over `data` appends to
/// an empty buffer, and whether it returned `Ok`.
pub uninterp spec fn gzip_decoded(data: Seq<u8>) -> (Seq<u8>, bool);

/// Reads a `flate2::read::GzDecoder` over `data` to its end. Trusted: the
/// bytes read (also those read before an error) and the success flag are
/// `gzip_decoded` of the input.
#[verifier::external_body]
pub(crate) fn gzip_read_all(data: &[u8]) -> (r: (Vec<u8>, bool))
    ensures
        (r.0@, r.1) == gzip_decoded(data@),
{
    let mut out = Vec::new();
    let ok = flate2::read::GzDecoder::new(data).read_to_end(&mut out).is_ok();
    (out, ok)
}

/// Calls `String::from_utf8`. Trusted, as std documents it: the bytes are
/// accepted exactly when they are valid UTF-8, and the string holds the
/// characters they encode.
#[verifier::external_body]
pub(crate) fn string_from_utf8(bytes: Vec<u8>) -> (r: Option<String>)
    ensures
        r is Some <==> valid_utf8(bytes@),
        r matches Some(s) ==> s@ == decode_utf8(bytes@),
{
    String::from_utf8(bytes).ok()
}


/// The view of an optional string.
pub open spec fn opt_string_view(o: Option<String>) -> Option<Seq<char>> {
    match o {
        Some(s) => Some(s@),
        None => None,
    }
}

/// The names that `zip::ZipArchive::file_names` lists for an archive read
/// from `data` (`None` for a name it cannot decode), or `None` where the
/// archive cannot be opened.
pub uninterp spec fn zip_entry_names(data: Seq<u8>) -> Option<Seq<Option<Seq<char>>>>;

/// Opens `data` as a `zip::ZipArchive` and lists its entry names. Trusted:
/// the result is `zip_entry_names` of the input.
#[verifier::external_body]
pub(crate) fn zip_names(data: &[u8]) -> (r: Option<Vec<Option<String>>>)
    ensures
        match r {
            Some(v) => zip_entry_names(data@) == Some(v@.map_values(|n: Option<String>| opt_string_view(n))),
            None => zip_entry_names(data@) is None,
        },
{
    match zip::ZipArchive::new(std::io::Cursor::new(data)) {
        Ok(c) => Some(c.file_names().map(|n| n.ok().map(|s| s.into_owned())).collect()),
        Err(_) => None,
    }
}

/// What `read_to_end` on the entry `name` of a `zip::ZipArchive` read from
/// `data` appends to an empty buffer (nothing where the archive cannot be
/// opened or has no such entry).
pub uninterp spec fn zip_entry_content(data: Seq<u8>, name: Seq<char>) -> Seq<u8>;

/// Reads the entry `name` of the zip archive in `data`. Trusted: the bytes
/// read are `zip_entry_content` of the inputs.
#[verifier::external_body]
pub(crate) fn zip_read_entry(data: &[u8], name: &str) -> (r: Vec<u8>)
    ensures
        r@ == zip_entry_content(data@, name@),
{
    let mut out = Vec::new();
    if let Ok(mut c) = zip::ZipArchive::new(std::io::Cursor::new(data)) {
        if let Ok(mut file) = c.by_name(name) {
            let _ = file.read_to_end(&mut out);
        }
    }
    out
}

/// What `read_to_end` on a `zstd::stream::read::Decoder` over `data` appends
/// to an empty buffer (nothing where the decoder cannot be created), and
/// whether the decoder was created and the read returned `Ok`.
pub uninterp spec fn zstd_decoded(data: Seq<u8>) -> (Seq<u8>, bool);

/// Reads a zstd stream to its end. Trusted: the bytes read (also those read
/// before an error) and the success flag are `zstd_decoded` of the input.
#[verifier::external_body]
pub(crate) fn zstd_read_all(data: &[u8]) -> (r: (Vec<u8>, bool))
    ensures
        (r.0@, r.1) == zstd_decoded(data@),
{
    let mut out = Vec::new();
    let ok = match zstd::stream::read::Decoder::new(data) {
        Ok(mut c) => c.read_to_end(&mut out).is_ok(),
        Err(_) => false,
    };
    (out, ok)
}

/// What `read_to_end` on a `flate2::read::DeflateDecoder` over `data`
/// appends to an empty buffer, and whether it returned `Ok`.
pub uninterp spec fn deflate_decoded(data: Seq<u8>) -> (Seq<u8>, bool);

/// Reads a `flate2::read::DeflateDecoder` over `data` to its end. Trusted:
/// the bytes read and the success flag are `deflate_decoded` of the input.
#[verifier::external_body]
pub(crate) fn deflate_read_all(data: &[u8]) -> (r: (Vec<u8>, bool))
    ensures
        (r.0@, r.1) == deflate_decoded(data@),
{
    let mut out = Vec::new();
    let ok = flate2::read::DeflateDecoder::new(data).read_to_end(&mut out).is_ok();
    (out, ok)
}

/// What `read_to_end` on a `brotli_decompressor::Decompressor` over `data`
/// (with a buffer of 4096 bytes) appends to an empty buffer, and whether it
/// returned `Ok`.
pub uninterp spec fn brotli_decoded(data: Seq<u8>) -> (Seq<u8>, bool);

/// Reads a `brotli_decompressor::Decompressor` over `data` to its end.
/// Trusted: the bytes read and the success flag are `brotli_decoded` of the
/// input.
#[verifier::external_body]
pub(crate) fn brotli_read_all(data: &[u8]) -> (r: (Vec<u8>, bool))
    ensures
        (r.0@, r.1) == brotli_decoded(data@),
{
    let mut out = Vec::new();
    let ok = brotli_decompressor::Decompressor::new(data, 4096).read_to_end(&mut out).is_ok();
    (out, ok)
}

/// Calls `tree_magic_mini::from_u8`. Nothing is stated of the MIME type it
/// returns: the crate matches the bytes against the MIME database that it
/// reads from the machine's shared-mime-info files.
#[verifier::external_body]
pub(crate) fn mime_type_of(data: &[u8]) -> String {
    tree_magic_mini::from_u8(data).to_string()
}

/// The SHA-256 digest of `data`, as `sha2::Sha256::digest` computes it.
pub uninterp spec fn sha256_of(data: Seq<u8>) -> Seq<u8>;

/// Calls `sha2::Sha256::digest`. Trusted: the digest is `sha256_of` the input.
#[verifier::external_body]
pub(crate) fn sha256_digest(data: &[u8]) -> (r: Vec<u8>)
    ensures
        r@ == sha256_of(data@),
{
    sha2::Sha256::digest(data).to_vec()
}

/// The SHA-1 digest of `data`, as `sha1::Sha1::digest` computes it.
pub uninterp spec fn sha1_of(data: Seq<u8>) -> Seq<u8>;

/// Calls `sha1::Sha1::digest`. Trusted: the digest is `sha1_of` the input.
#[verifier::external_body]
pub(crate) fn sha1_digest(data: &[u8]) -> (r: Vec<u8>)
    ensures
        r@ == sha1_of(data@),
{
    sha1::Sha1::digest(data).to_vec()
}

/// The MD5 digest of `data`, as `md5::Md5::digest` (crate `md-5`) computes it.
pub uninterp spec fn md5_of(data: Seq<u8>) -> Seq<u8>;

/// Calls `md5::Md5::digest`. Trusted: the digest is `md5_of` the input.
#[verifier::external_body]
pub(crate) fn md5_digest(data: &[u8]) -> (r: Vec<u8>)
    ensures
        r@ == md5_of(data@),
{
    md5::Md5::digest(data).to_vec()
}

/// What `str::to_lowercase` makes of `text` (Unicode lowercase mapping).
pub uninterp spec fn lowercase_of(text: Seq<char>) -> Seq<char>;

/// Calls `str::to_lowercase`. Trusted: the result is `lowercase_of` the text.
#[verifier::external_body]
pub(crate) fn to_lowercase(text: &str) -> (r: String)
    ensures
        r@ == lowercase_of(text@),
{
    text.to_lowercase()
}

#[verifier::external_type_specification]
#[verifier::external_body]
pub struct ExParseIntError(std::num::ParseIntError);

/// Whether a byte is an ASCII hexadecimal digit.
pub open spec fn is_hex_digit(b: u8) -> bool {
    (48 <= b <= 57) || (65 <= b <= 70) || (97 <= b <= 102)
}

/// The value of an ASCII hexadecimal digit.
pub open spec fn hex_digit_value(b: u8) -> int {
    if 48 <= b <= 57 {
        b - 48
    } else if 65 <= b <= 70 {
        b - 55
    } else {
        b - 87
    }
}

/// The number written by hexadecimal digits.
pub open spec fn hex_digits_value(d: Seq<u8>) -> int
    decreases d.len(),
{
    if d.len() == 0 {
        0
    } else {
        hex_digits_value(d.drop_last()) * 16 + hex_digit_value(d.last())
    }
}

/// What `u8::from_str_radix(text, 16)` reads from the bytes of `text`: an
/// optional `+`, then at least one hexadecimal digit, for a value that fits
/// in a `u8`.
pub open spec fn radix16_u8_value(t: Seq<u8>) -> Option<int> {
    let d = if t.len() > 0 && t[0] == 43 {
        t.drop_first()
    } else {
        t
    };
    if d.len() > 0 && (forall|i: int| 0 <= i < d.len() ==> is_hex_digit(#[trigger] d[i]))
        && hex_digits_value(d) <= 255 {
        Some(hex_digits_value(d))
    } else {
        None
    }
}

/// Calls `u8::from_str_radix(text, 16)`. Trusted, as std documents it: `Ok`
/// with the value exactly where the text is an optional `+` and hexadecimal
/// digits whose value fits in a `u8`.
#[verifier::external_body]
pub(crate) fn u8_from_hex_text(text: &str) -> (r: Result<u8, std::num::ParseIntError>)
    ensures
        match r {
            Ok(v) => radix16_u8_value(text.spec_bytes()) == Some(v as int),
            Err(_) => radix16_u8_value(text.spec_bytes()) is None,
        },
{
    u8::from_str_radix(text, 16)
}

/// Calls `<str as Index<Range<usize>>>::index` (`&s[from..to]`). Trusted, as
/// std documents it: on character boundaries, the part of `s` between the
/// two byte offsets.
#[verifier::external_body]
pub(crate) fn str_byte_range(s: &str, from: usize, to: usize) -> (r: &str)
    requires
        from <= to <= s.spec_bytes().len(),
        is_char_boundary(s.spec_bytes(), from as int),
        is_char_boundary(s.spec_bytes(), to as int),
    ensures
        r.spec_bytes() == s.spec_bytes().subrange(from as int, to as int),
{
    &s[from..to]
}

/// The pairs of a map.
pub open spec fn map_pairs(m: Map<Seq<char>, Seq<char>>) -> Set<(Seq<char>, Seq<char>)> {
    Set::new(|p: (Seq<char>, Seq<char>)| m.contains_key(p.0) && m[p.0] == p.1)
}

/// The map of strings that `serde_json::from_str::<HashMap<String, String>>`
/// reads from `text`, or `None` where it reports an error.
pub uninterp spec fn json_string_object(text: Seq<char>) -> Option<Map<Seq<char>, Seq<char>>>;

/// Reads a JSON object of strings with `serde_json::from_str` into a
/// `HashMap<String, String>` and lists its entries. Trusted: the result is
/// `Some` exactly where `json_string_object` of the text is, and then holds
/// exactly that map's pairs. The order of the list is the map's iteration
/// order, on which nothing is stated.
#[verifier::external_body]
pub(crate) fn parse_json_string_object(text: &str) -> (r: Option<Vec<(String, String)>>)
    ensures
        r is Some <==> json_string_object(text@) is Some,
        r matches Some(v) ==> v@.map_values(|p: (String, String)| (p.0@, p.1@)).to_set()
            == map_pairs(json_string_object(text@)->0),
{
    match serde_json::from_str::<std::collections::HashMap<String, String>>(text) {
        Ok(m) => Some(m.into_iter().collect()),
        Err(_) => None,
    }
}

/// The byte is allowed in header text: visible ASCII or a tab.
pub open spec fn is_visible_ascii(b: u8) -> bool {
    (32 <= b < 127) || b == 9
}

/// Makes an `http::HeaderValue` of the bytes and reads it with
/// `HeaderValue::to_str`. Trusted, as the `http` crate's source shows
/// (`to_str` accepts exactly the values made of visible ASCII and tabs, and
/// every such byte string is a valid value): the text is returned exactly
/// where every byte is visible ASCII or a tab, and its UTF-8 bytes are the
/// input.
#[verifier::external_body]
pub(crate) fn header_value_text(bytes: &[u8]) -> (r: Option<String>)
    ensures
        r is Some <==> forall|i: int| 0 <= i < bytes@.len() ==> is_visible_ascii(#[trigger] bytes@[i]),
        r matches Some(s) ==> encode_utf8(s@) == bytes@,
{
    match http::HeaderValue::from_bytes(bytes) {
        Ok(v) => match v.to_str() {
            Ok(s) => Some(s.to_string()),
            Err(_) => None,
        },
        Err(_) => None,
    }
}

} // verus!
