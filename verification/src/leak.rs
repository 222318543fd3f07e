//! Finding leaked device information in network flows.
use crate::external::{
    gzip_decoded, gzip_read_all, hex_digit_value, hex_digits_value, is_hex_digit, md5_digest, md5_of,
    mime_type_of, opt_string_view, radix16_u8_value, sha1_digest, sha1_of, sha256_digest, sha256_of,
    str_byte_range, u8_from_hex_text, zip_entry_content, zip_entry_names, zip_names, zip_read_entry,
    zstd_decoded, zstd_read_all,
};
use crate::text::{chars_of, split_char, split_spec, str_eq, str_views, string_views};
use vstd::prelude::*;
use vstd::string::StringSliceAdditionalSpecFns;
use vstd::utf8::{encode_utf8, is_char_boundary};

verus! {

/// `needle` occurs as a contiguous part of `haystack` (the empty needle
/// occurs everywhere).
pub open spec fn is_sub_spec(haystack: Seq<u8>, needle: Seq<u8>) -> bool {
    exists|i: int|
        0 <= i <= haystack.len() - needle.len() && #[trigger] haystack.subrange(i, i + needle.len())
            == needle
}

/// Whether `needle` occurs as a contiguous part of `haystack`.
pub fn is_sub(haystack: &[u8], needle: &[u8]) -> (r: bool)
    ensures
        r == is_sub_spec(haystack@, needle@),
{
    let h_len = haystack.len();
    let n_len = needle.len();
    if n_len == 0 {
        assert(haystack@.subrange(0, 0 + needle@.len() as int) =~= needle@);
        return true;
    }
    if h_len < n_len {
        return false;
    }
    let mut i: usize = 0;
    while i <= h_len - n_len
        invariant
            h_len == haystack@.len(),
            n_len == needle@.len(),
            0 < n_len <= h_len,
            i <= h_len - n_len + 1,
            forall|k: int| 0 <= k < i ==> #[trigger] haystack@.subrange(k, k + n_len) != needle@,
        decreases h_len - n_len + 1 - i,
    {
        let mut found = true;
        let mut j: usize = 0;
        while j < n_len && found
            invariant
                h_len == haystack@.len(),
                n_len == needle@.len(),
                i + n_len <= h_len,
                j <= n_len,
                forall|k: int| 0 <= k < j ==> haystack@[i + k] == needle@[k],
                !found ==> haystack@.subrange(i as int, i + n_len) != needle@,
            decreases (n_len - j) as int + if found { 1int } else { 0int },
        {
            if haystack[i + j] != needle[j] {
                assert(haystack@.subrange(i as int, i + n_len)[j as int] != needle@[j as int]);
                found = false;
            } else {
                j = j + 1;
            }
        }
        if found {
            assert(haystack@.subrange(i as int, i + n_len) =~= needle@);
            return true;
        }
        i = i + 1;
    }
    false
}


/// The ASCII character of a hexadecimal digit value (`0..16`).
pub open spec fn hex_char(n: int, upper: bool) -> u8 {
    if n < 10 {
        (48 + n) as u8
    } else if upper {
        (55 + n) as u8
    } else {
        (87 + n) as u8
    }
}

/// Each byte as two hexadecimal digits, in upper or lower case.
pub open spec fn hex_text(bytes: Seq<u8>, upper: bool) -> Seq<u8>
    decreases bytes.len(),
{
    if bytes.len() == 0 {
        seq![]
    } else {
        hex_text(bytes.drop_last(), upper) + seq![
            hex_char((bytes.last() / 16) as int, upper),
            hex_char((bytes.last() % 16) as int, upper),
        ]
    }
}

fn hex_digit_char(n: u8, upper: bool) -> (r: u8)
    requires
        n < 16,
    ensures
        r == hex_char(n as int, upper),
{
    if n < 10 {
        48 + n
    } else if upper {
        55 + n
    } else {
        87 + n
    }
}

/// The bytes of the hexadecimal text of `bytes`.
pub(crate) fn hex_encode(bytes: &[u8], upper: bool) -> (r: Vec<u8>)
    ensures
        r@ == hex_text(bytes@, upper),
{
    let mut r: Vec<u8> = Vec::new();
    let mut i: usize = 0;
    assert(bytes@.take(0) =~= Seq::<u8>::empty());
    while i < bytes.len()
        invariant
            i <= bytes.len(),
            r@ == hex_text(bytes@.take(i as int), upper),
        decreases bytes.len() - i,
    {
        let b = bytes[i];
        let hi = hex_digit_char(b / 16, upper);
        let lo = hex_digit_char(b % 16, upper);
        r.push(hi);
        r.push(lo);
        assert(bytes@.take(i + 1).drop_last() =~= bytes@.take(i as int));
        assert(r@ =~= hex_text(bytes@.take(i + 1), upper));
        i = i + 1;
    }
    assert(bytes@.take(bytes.len() as int) =~= bytes@);
    r
}

/// The digests of `input` that are looked for: SHA-256, SHA-1 and MD5, each
/// as raw bytes and then as lowercase hexadecimal text.
pub open spec fn leak_hashes(input: Seq<u8>) -> Seq<Seq<u8>> {
    seq![
        sha256_of(input),
        hex_text(sha256_of(input), false),
        sha1_of(input),
        hex_text(sha1_of(input), false),
        md5_of(input),
        hex_text(md5_of(input), false),
    ]
}

pub open spec fn byte_views(v: Seq<Vec<u8>>) -> Seq<Seq<u8>> {
    v.map_values(|b: Vec<u8>| b@)
}

/// Whether every character of `s` is a hexadecimal digit.
pub open spec fn all_hex_chars(s: Seq<char>) -> bool {
    forall|i: int|
        0 <= i < s.len() ==> ('0' <= #[trigger] s[i] <= '9' || 'a' <= s[i] <= 'f' || 'A' <= s[i]
            <= 'F')
}

/// Six groups of two hexadecimal digits separated by `:`.
pub open spec fn is_mac_address_spec(s: Seq<char>) -> bool {
    let parts = split_spec(s, ':');
    parts.len() == 6 && forall|i: int|
        0 <= i < 6 ==> #[trigger] parts[i].len() == 2 && all_hex_chars(parts[i])
}

/// What decoding hexadecimal text pair by pair gives.
pub enum HexOutcome {
    Decoded(Seq<u8>),
    /// some pair is not a number that `u8::from_str_radix` accepts
    Invalid,
    /// a pair would end past the text or inside a character
    Panics,
}

/// Decoding the pairs of bytes of `b` from `i` on, as `decode_hex` does.
pub open spec fn hex_decode_from(b: Seq<u8>, i: int) -> HexOutcome
    decreases b.len() - i,
{
    if i < 0 || i >= b.len() {
        HexOutcome::Decoded(seq![])
    } else if i + 2 > b.len() || !is_char_boundary(b, i) || !is_char_boundary(b, i + 2) {
        HexOutcome::Panics
    } else {
        match radix16_u8_value(b.subrange(i, i + 2)) {
            None => HexOutcome::Invalid,
            Some(v) => match hex_decode_from(b, i + 2) {
                HexOutcome::Decoded(rest) => HexOutcome::Decoded(seq![v as u8] + rest),
                other => other,
            },
        }
    }
}

pub open spec fn prepend_decoded(prefix: Seq<u8>, o: HexOutcome) -> HexOutcome {
    match o {
        HexOutcome::Decoded(rest) => HexOutcome::Decoded(prefix + rest),
        other => other,
    }
}

/// Decodes text of hexadecimal digit pairs into bytes; panics of the pair
/// slicing are ruled out by the precondition.
pub fn decode_hex(s: &str) -> (r: Result<Vec<u8>, std::num::ParseIntError>)
    requires
        !(hex_decode_from(s.spec_bytes(), 0) is Panics),
    ensures
        match r {
            Ok(v) => hex_decode_from(s.spec_bytes(), 0) == HexOutcome::Decoded(v@),
            Err(_) => hex_decode_from(s.spec_bytes(), 0) is Invalid,
        },
{
    let ghost b = s.spec_bytes();
    let n = s.as_bytes().len();
    let mut out: Vec<u8> = Vec::new();
    let mut i: usize = 0;
    assert(out@ + seq![] =~= out@);
    while i < n
        invariant
            b == s.spec_bytes(),
            n == b.len(),
            i <= n,
            hex_decode_from(b, 0) == prepend_decoded(out@, hex_decode_from(b, i as int)),
            !(hex_decode_from(b, 0) is Panics),
        decreases n - i,
    {
        let pair = str_byte_range(s, i, i + 2);
        match u8_from_hex_text(pair) {
            Ok(v) => {
                proof {
                    let o = hex_decode_from(b, i + 2);
                    match o {
                        HexOutcome::Decoded(rest) => {
                            assert(out@ + (seq![v] + rest) =~= out@.push(v) + rest);
                        },
                        _ => {},
                    }
                }
                out.push(v);
                i = i + 2;
            },
            Err(e) => {
                return Err(e);
            },
        }
    }
    assert(out@ + seq![] =~= out@);
    Ok(out)
}

/// The leak items that are looked for: each item's name and the byte forms
/// in which its value may appear in a flow.
pub struct Leaks(pub Vec<(String, Vec<Vec<u8>>)>);

pub open spec fn entry_models(entries: Seq<(String, Vec<Vec<u8>>)>) -> Seq<(Seq<char>, Seq<Seq<u8>>)> {
    entries.map_values(|e: (String, Vec<Vec<u8>>)| (e.0@, byte_views(e.1@)))
}

impl View for Leaks {
    type V = Seq<(Seq<char>, Seq<Seq<u8>>)>;

    open spec fn view(&self) -> Seq<(Seq<char>, Seq<Seq<u8>>)> {
        entry_models(self.0@)
    }
}

/// The bytes with ASCII capital letters made small.
pub open spec fn ascii_lowercase(s: Seq<u8>) -> Seq<u8> {
    s.map_values(|b: u8| if 65 <= b <= 90 { (b + 32) as u8 } else { b })
}

/// The value occurs in the chunk, or in the chunk with ASCII letters made small.
pub open spec fn value_found(chunk: Seq<u8>, value: Seq<u8>) -> bool {
    is_sub_spec(chunk, value) || is_sub_spec(ascii_lowercase(chunk), value)
}

/// Some form of the item's value occurs in the chunk.
pub open spec fn item_found(values: Seq<Seq<u8>>, chunk: Seq<u8>) -> bool {
    exists|j: int| 0 <= j < values.len() && #[trigger] value_found(chunk, values[j])
}

/// The names of the items that occur in the chunk, in the order of the items.
pub open spec fn keys_found(entries: Seq<(Seq<char>, Seq<Seq<u8>>)>, chunk: Seq<u8>) -> Seq<Seq<char>>
    decreases entries.len(),
{
    if entries.len() == 0 {
        seq![]
    } else {
        let rest = keys_found(entries.drop_last(), chunk);
        if item_found(entries.last().1, chunk) {
            rest.push(entries.last().0)
        } else {
            rest
        }
    }
}

/// The names of the items, in order.
pub open spec fn item_names(entries: Seq<(Seq<char>, Seq<Seq<u8>>)>) -> Seq<Seq<char>> {
    entries.map_values(|e: (Seq<char>, Seq<Seq<u8>>)| e.0)
}

/// A name is found exactly when some item of that name has a value in the
/// chunk, and items with distinct names are found at most once each.
pub proof fn lemma_keys_found_facts(entries: Seq<(Seq<char>, Seq<Seq<u8>>)>, chunk: Seq<u8>)
    ensures
        forall|x: Seq<char>|
            #![trigger keys_found(entries, chunk).contains(x)]
            keys_found(entries, chunk).contains(x) <==> exists|e: int|
                0 <= e < entries.len() && #[trigger] entries[e].0 == x && item_found(entries[e].1, chunk),
        item_names(entries).no_duplicates() ==> keys_found(entries, chunk).no_duplicates(),
    decreases entries.len(),
{
    if entries.len() > 0 {
        let d = entries.drop_last();
        let last = entries.last();
        lemma_keys_found_facts(d, chunk);
        let rest = keys_found(d, chunk);
        let kf = keys_found(entries, chunk);
        assert forall|x: Seq<char>|
            #![trigger kf.contains(x)]
            kf.contains(x) <==> exists|e: int|
                0 <= e < entries.len() && #[trigger] entries[e].0 == x && item_found(entries[e].1, chunk) by {
            if kf.contains(x) {
                if rest.contains(x) {
                    let e = choose|e: int| 0 <= e < d.len() && #[trigger] d[e].0 == x && item_found(d[e].1, chunk);
                    assert(entries[e] == d[e]);
                } else {
                    let idx = choose|i: int| 0 <= i < kf.len() && kf[i] == x;
                    if item_found(last.1, chunk) {
                        assert(kf == rest.push(last.0));
                        if idx < rest.len() {
                            assert(rest[idx] == x);
                        }
                        assert(entries[entries.len() - 1].0 == x);
                    } else {
                        assert(kf == rest);
                    }
                }
            }
            if exists|e: int| 0 <= e < entries.len() && #[trigger] entries[e].0 == x && item_found(entries[e].1, chunk) {
                let e = choose|e: int| 0 <= e < entries.len() && #[trigger] entries[e].0 == x && item_found(entries[e].1, chunk);
                if e < d.len() {
                    assert(d[e] == entries[e]);
                    assert(rest.contains(x));
                    let idx = choose|i: int| 0 <= i < rest.len() && rest[i] == x;
                    if item_found(last.1, chunk) {
                        assert(kf[idx] == rest[idx]);
                    }
                    assert(kf[idx] == x);
                } else {
                    assert(kf == rest.push(last.0));
                    assert(kf[rest.len() as int] == x);
                }
            }
        }
        if item_names(entries).no_duplicates() {
            assert(item_names(d) =~= item_names(entries).drop_last());
            assert(item_names(d).no_duplicates()) by {
                assert forall|i: int, j: int| 0 <= i < j < item_names(d).len() implies item_names(d)[i] != item_names(d)[j] by {
                    assert(item_names(d)[i] == item_names(entries)[i]);
                    assert(item_names(d)[j] == item_names(entries)[j]);
                }
            }
            if item_found(last.1, chunk) {
                if rest.contains(last.0) {
                    let e = choose|e: int| 0 <= e < d.len() && #[trigger] d[e].0 == last.0 && item_found(d[e].1, chunk);
                    assert(item_names(entries)[e] == item_names(entries)[entries.len() - 1]);
                    assert(false);
                }
                assert(kf == rest.push(last.0));
                assert forall|i: int, j: int| 0 <= i < j < kf.len() implies kf[i] != kf[j] by {
                    if j == rest.len() {
                        assert(kf[i] == rest[i]);
                        assert(rest.contains(rest[i]));
                    } else {
                        assert(kf[i] == rest[i]);
                        assert(kf[j] == rest[j]);
                    }
                }
            }
        }
    }
}

/// What an archive of the given MIME type unpacks to: the decompressed bytes
/// of gzip and zstd streams, the names and contents of the entries of zip
/// archives; other data stays as it is.
pub open spec fn unpacked_with(chunk: Seq<u8>, mime: Seq<char>) -> Seq<u8> {
    if mime == "application/gzip"@ {
        gzip_decoded(chunk).0
    } else if mime == "application/zip"@ {
        zip_unpacked(chunk)
    } else if mime == "application/zstd"@ {
        zstd_decoded(chunk).0
    } else {
        chunk
    }
}

/// The name and then the content of each zip entry, in order.
pub open spec fn zip_entries_concat(data: Seq<u8>, names: Seq<Option<Seq<char>>>) -> Seq<u8>
    decreases names.len(),
{
    if names.len() == 0 {
        seq![]
    } else {
        zip_entries_concat(data, names.drop_last()) + match names.last() {
            Some(n) => encode_utf8(n) + zip_entry_content(data, n),
            None => seq![],
        }
    }
}

pub open spec fn zip_unpacked(data: Seq<u8>) -> Seq<u8> {
    match zip_entry_names(data) {
        Some(names) => zip_entries_concat(data, names),
        None => seq![],
    }
}

/// The names of the items that a search of `chunk` finds, unpacking it by
/// the MIME type `mime` when `unarchive` is set; an empty chunk holds none.
pub open spec fn contains_result(
    entries: Seq<(Seq<char>, Seq<Seq<u8>>)>,
    chunk: Seq<u8>,
    unarchive: bool,
    mime: Seq<char>,
) -> Seq<Seq<char>> {
    if chunk.len() == 0 {
        seq![]
    } else if unarchive {
        keys_found(entries, unpacked_with(chunk, mime))
    } else {
        keys_found(entries, chunk)
    }
}

/// A copy of bytes.
pub fn copy_bytes(s: &[u8]) -> (r: Vec<u8>)
    ensures
        r@ == s@,
{
    let mut r: Vec<u8> = Vec::new();
    let mut i: usize = 0;
    while i < s.len()
        invariant
            i <= s.len(),
            r@ == s@.take(i as int),
        decreases s.len() - i,
    {
        r.push(s[i]);
        i = i + 1;
    }
    assert(s@.take(s.len() as int) =~= s@);
    r
}

/// Appends bytes to a vector.
pub(crate) fn extend_bytes(dst: &mut Vec<u8>, src: &[u8])
    ensures
        final(dst)@ == old(dst)@ + src@,
{
    let mut i: usize = 0;
    while i < src.len()
        invariant
            i <= src.len(),
            dst@ == old(dst)@ + src@.take(i as int),
        decreases src.len() - i,
    {
        dst.push(src[i]);
        i = i + 1;
        assert(dst@ =~= old(dst)@ + src@.take(i as int));
    }
    assert(src@.take(src.len() as int) =~= src@);
}

/// The names and contents of the entries of the zip archive in `chunk`.
fn zip_unpack(chunk: &[u8]) -> (r: Vec<u8>)
    ensures
        r@ == zip_unpacked(chunk@),
{
    let mut result: Vec<u8> = Vec::new();
    match zip_names(chunk) {
        None => result,
        Some(names) => {
            let ghost ns = names@.map_values(|n: Option<String>| opt_string_view(n));
            let mut i: usize = 0;
            assert(ns.take(0) =~= Seq::<Option<Seq<char>>>::empty());
            while i < names.len()
                invariant
                    ns == names@.map_values(|n: Option<String>| opt_string_view(n)),
                    i <= names.len(),
                    result@ == zip_entries_concat(chunk@, ns.take(i as int)),
                decreases names.len() - i,
            {
                assert(ns.take(i + 1).drop_last() =~= ns.take(i as int));
                assert(ns.take(i + 1).last() == opt_string_view(names@[i as int]));
                match &names[i] {
                    Some(name) => {
                        let ghost before = result@;
                        extend_bytes(&mut result, name.as_str().as_bytes());
                        let content = zip_read_entry(chunk, name.as_str());
                        extend_bytes(&mut result, content.as_slice());
                        assert(result@ =~= before + (encode_utf8(name@) + zip_entry_content(
                            chunk@,
                            name@,
                        )));
                    },
                    None => {
                        assert(result@ =~= result@ + Seq::<u8>::empty());
                    },
                }
                i = i + 1;
            }
            assert(ns.take(names.len() as int) =~= ns);
            result
        },
    }
}

impl Leaks {
    /// The digests of `input` that are looked for (see `leak_hashes`).
    pub fn hash(input: &[u8]) -> (r: Vec<Vec<u8>>)
        ensures
            byte_views(r@) == leak_hashes(input@),
    {
        let mut output: Vec<Vec<u8>> = Vec::new();
        let o = sha256_digest(input);
        let h = hex_encode(o.as_slice(), false);
        output.push(o);
        output.push(h);
        let o = sha1_digest(input);
        let h = hex_encode(o.as_slice(), false);
        output.push(o);
        output.push(h);
        let o = md5_digest(input);
        let h = hex_encode(o.as_slice(), false);
        output.push(o);
        output.push(h);
        assert(byte_views(output@) =~= leak_hashes(input@));
        output
    }

    /// Whether the text is a MAC address written as six pairs of
    /// hexadecimal digits separated by `:`.
    pub fn is_mac_address(s: &str) -> (r: bool)
        ensures
            r == is_mac_address_spec(s@),
    {
        let parts = split_char(s, ':');
        if parts.len() != 6 {
            return false;
        }
        let mut i: usize = 0;
        while i < 6
            invariant
                parts.len() == 6,
                str_views(parts@) == split_spec(s@, ':'),
                i <= 6,
                forall|k: int|
                    0 <= k < i ==> #[trigger] str_views(parts@)[k].len() == 2 && all_hex_chars(
                        str_views(parts@)[k],
                    ),
            decreases 6 - i,
        {
            let part = chars_of(parts[i]);
            assert(part@ == str_views(parts@)[i as int]);
            if part.len() != 2 {
                return false;
            }
            let mut j: usize = 0;
            while j < 2
                invariant
                    part.len() == 2,
                    i < 6,
                    parts.len() == 6,
                    part@ == str_views(parts@)[i as int],
                    str_views(parts@) == split_spec(s@, ':'),
                    j <= 2,
                    forall|k: int|
                        0 <= k < j ==> ('0' <= #[trigger] part@[k] <= '9' || 'a' <= part@[k] <= 'f'
                            || 'A' <= part@[k] <= 'F'),
                decreases 2 - j,
            {
                let c = part[j];
                if !(('0' <= c && c <= '9') || ('a' <= c && c <= 'f') || ('A' <= c && c <= 'F')) {
                    assert(str_views(parts@)[i as int][j as int] == c);
                    assert(!is_mac_address_spec(s@));
                    return false;
                }
                j = j + 1;
            }
            i = i + 1;
        }
        true
    }

    /// The names of the items that occur in `chunk` (see `keys_found`).
    pub fn contains_in(&self, chunk: &[u8]) -> (r: Vec<String>)
        ensures
            string_views(r@) == keys_found(self@, chunk@),
            item_names(self@).no_duplicates() ==> string_views(r@).no_duplicates(),
    {
        proof {
            lemma_keys_found_facts(self@, chunk@);
        }
        let lowercase_chunk = ascii_lowercase_bytes(chunk);
        let mut result: Vec<String> = Vec::new();
        let mut e: usize = 0;
        assert(self@.take(0) =~= Seq::<(Seq<char>, Seq<Seq<u8>>)>::empty());
        while e < self.0.len()
            invariant
                e <= self.0.len(),
                lowercase_chunk@ == ascii_lowercase(chunk@),
                string_views(result@) == keys_found(self@.take(e as int), chunk@),
            decreases self.0.len() - e,
        {
            let key = &self.0[e].0;
            let leak_values = &self.0[e].1;
            let ghost values = byte_views(leak_values@);
            assert(values == self@[e as int].1);
            let mut found = false;
            let mut j: usize = 0;
            while j < leak_values.len() && !found
                invariant
                    values == byte_views(leak_values@),
                    lowercase_chunk@ == ascii_lowercase(chunk@),
                    j <= leak_values.len(),
                    found ==> item_found(values, chunk@),
                    !found ==> forall|k: int| 0 <= k < j ==> !#[trigger] value_found(chunk@, values[k]),
                decreases leak_values.len() - j + if found { 0int } else { 1int },
            {
                let value = &leak_values[j];
                assert(values[j as int] == value@);
                if chunk.len() < value.len() {
                    proof {
                        assert(!value_found(chunk@, values[j as int]));
                    }
                    j = j + 1;
                } else if crate::data::bytes_equal(chunk, value.as_slice()) || crate::data::bytes_equal(
                    lowercase_chunk.as_slice(),
                    value.as_slice(),
                ) {
                    proof {
                        assert(chunk@.subrange(0, 0 + value@.len() as int) =~= chunk@);
                        assert(lowercase_chunk@.subrange(0, 0 + value@.len() as int) =~= lowercase_chunk@);
                        assert(value_found(chunk@, values[j as int]));
                    }
                    found = true;
                } else if is_sub(chunk, value.as_slice()) {
                    assert(value_found(chunk@, values[j as int]));
                    found = true;
                } else if is_sub(lowercase_chunk.as_slice(), value.as_slice()) {
                    assert(value_found(chunk@, values[j as int]));
                    found = true;
                } else {
                    j = j + 1;
                }
            }
            proof {
                assert(self@.take(e + 1).drop_last() =~= self@.take(e as int));
                assert(self@.take(e + 1).last() == self@[e as int]);
            }
            if found {
                let ghost before = result@;
                result.push(key.clone());
                assert(string_views(result@) =~= string_views(before).push(key@));
            }
            e = e + 1;
        }
        assert(self@.take(self.0.len() as int) =~= self@);
        result
    }

    /// What the chunk unpacks to when it is an archive of the given MIME
    /// type (see `unpacked_with`).
    pub fn unpack_as(chunk: &[u8], mime: &str) -> (r: Vec<u8>)
        ensures
            r@ == unpacked_with(chunk@, mime@),
    {
        if str_eq(mime, "application/gzip") {
            let (result, _) = gzip_read_all(chunk);
            result
        } else if str_eq(mime, "application/zip") {
            zip_unpack(chunk)
        } else if str_eq(mime, "application/zstd") {
            let (result, _) = zstd_read_all(chunk);
            result
        } else {
            copy_bytes(chunk)
        }
    }

    /// What the chunk unpacks to, by the MIME type that its content shows.
    fn unpack(chunk: &[u8]) -> (r: Vec<u8>)
        ensures
            exists|m: Seq<char>| r@ == #[trigger] unpacked_with(chunk@, m),
    {
        let mimetype = mime_type_of(chunk);
        Self::unpack_as(chunk, mimetype.as_str())
    }

    /// The names of the items found in `chunk`, after unpacking it when
    /// `unarchive` is set. The unpacking goes by the MIME type that the
    /// machine's MIME database gives the chunk, on which nothing is stated.
    pub fn contains(&self, chunk: &[u8], unarchive: bool) -> (r: Vec<String>)
        ensures
            chunk@.len() == 0 ==> r@.len() == 0,
            chunk@.len() > 0 && !unarchive ==> string_views(r@) == keys_found(self@, chunk@),
            chunk@.len() > 0 && unarchive ==> exists|m: Seq<char>|
                string_views(r@) == keys_found(self@, #[trigger] unpacked_with(chunk@, m)),
            exists|m: Seq<char>| string_views(r@) == #[trigger] contains_result(self@, chunk@, unarchive, m),
            item_names(self@).no_duplicates() ==> string_views(r@).no_duplicates(),
    {
        if chunk.len() == 0 {
            let r: Vec<String> = Vec::new();
            assert(string_views(r@) == contains_result(self@, chunk@, unarchive, Seq::empty()));
            return r;
        }
        if unarchive {
            let unpacked = Self::unpack(chunk);
            let r = self.contains_in(unpacked.as_slice());
            proof {
                let m = choose|m: Seq<char>| unpacked@ == #[trigger] unpacked_with(chunk@, m);
                assert(string_views(r@) == contains_result(self@, chunk@, unarchive, m));
            }
            r
        } else {
            let r = self.contains_in(chunk);
            assert(string_views(r@) == contains_result(self@, chunk@, unarchive, Seq::empty()));
            r
        }
    }
}

/// The bytes with ASCII capital letters made small.
fn ascii_lowercase_bytes(s: &[u8]) -> (r: Vec<u8>)
    ensures
        r@ == ascii_lowercase(s@),
{
    let mut r: Vec<u8> = Vec::new();
    let mut i: usize = 0;
    while i < s.len()
        invariant
            i <= s.len(),
            r@ == ascii_lowercase(s@.take(i as int)),
        decreases s.len() - i,
    {
        let b = s[i];
        r.push(if b >= 65 && b <= 90 { b + 32 } else { b });
        assert(r@ =~= ascii_lowercase(s@.take(i + 1)));
        i = i + 1;
    }
    assert(s@.take(s.len() as int) =~= s@);
    r
}

} // verus!
