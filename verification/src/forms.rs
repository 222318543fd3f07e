//! The byte forms in which the values of leak items are looked for.
use crate::external::{base64_no_pad_encode, base64_no_pad_encoded, lowercase_of, to_lowercase};
use crate::leak::{
    all_hex_chars, byte_views, copy_bytes, decode_hex, entry_models, hex_decode_from, hex_encode,
    hex_text, is_mac_address_spec, item_names, leak_hashes, HexOutcome, Leaks,
};
use crate::external::{str_byte_range, u8_from_hex_text};
use crate::text::{chars_of, find_char, i128_text_value, parse_i128, split_char, split_spec, string_views};
use vstd::prelude::*;
use vstd::string::{StringExecFns, StringSliceAdditionalSpecFns};
use vstd::utf8::{
    encode_utf8, encode_utf8_valid_utf8, is_ascii_chars, is_ascii_chars_encode_utf8,
    is_char_boundary_iff_not_is_continuation_byte,
    is_char_boundary_start_end_of_seq, valid_utf8,
};

verus! {

/// The pieces joined one after the other.
pub open spec fn join_pieces(parts: Seq<Seq<char>>) -> Seq<char>
    decreases parts.len(),
{
    if parts.len() == 0 {
        seq![]
    } else {
        join_pieces(parts.drop_last()) + parts.last()
    }
}

/// The text with every `c` taken out.
pub open spec fn without_char_spec(s: Seq<char>, c: char) -> Seq<char> {
    join_pieces(split_spec(s, c))
}

/// The bytes of `n` in base 256, most significant first, without leading
/// zero bytes (none at all for zero).
pub open spec fn be_bytes(n: nat) -> Seq<u8>
    decreases n,
{
    if n == 0 {
        seq![]
    } else {
        be_bytes(n / 256).push((n % 256) as u8)
    }
}

/// The bytes that hexadecimal text decodes to, where it decodes.
pub open spec fn hex_decoded(b: Seq<u8>) -> Option<Seq<u8>> {
    match hex_decode_from(b, 0) {
        HexOutcome::Decoded(v) => Some(v),
        _ => None,
    }
}

/// One form where there is one, none otherwise.
pub open spec fn opt_form(o: Option<Seq<u8>>) -> Seq<Seq<u8>> {
    match o {
        Some(b) => seq![b],
        None => seq![],
    }
}

/// A form that is looked for only where `cond` holds.
pub open spec fn form_if(cond: bool, f: Seq<u8>) -> Seq<Seq<u8>> {
    if cond {
        seq![f]
    } else {
        seq![]
    }
}

/// The big-endian bytes of a number that is written as an `i128` and is
/// above `u32::MAX`.
pub open spec fn large_number_form(v: Seq<char>) -> Seq<Seq<u8>> {
    match i128_text_value(v) {
        Some(n) => form_if(n > u32::MAX, be_bytes(n as nat)),
        None => seq![],
    }
}

/// The forms of one value, in the order in which they are collected: for a
/// MAC address the six bytes it writes; the text without `:` and without
/// `-` where it holds them; its digests (`leak_hashes`); the forms that std
/// parses from it (`std_forms`: addresses and floating-point numbers); a
/// large number's bytes; the bytes that longer even-length text decodes to
/// as hexadecimal; and the text in lower case.
pub open spec fn value_forms(v: Seq<char>, std_forms: Seq<Seq<u8>>) -> Seq<Seq<u8>> {
    let b = encode_utf8(v);
    (if is_mac_address_spec(v) {
        opt_form(hex_decoded(encode_utf8(without_char_spec(v, ':'))))
    } else {
        seq![]
    }) + form_if(v.contains(':'), encode_utf8(without_char_spec(v, ':'))) + form_if(
        v.contains('-'),
        encode_utf8(without_char_spec(v, '-')),
    ) + leak_hashes(b) + std_forms + large_number_form(v) + (if b.len() > 8 && b.len() % 2
        == 0 {
        opt_form(hex_decoded(b))
    } else {
        seq![]
    }) + seq![encode_utf8(lowercase_of(v))]
}

/// The forms of all the values of an item, value after value.
pub open spec fn values_forms(vs: Seq<Seq<char>>, stds: Seq<Seq<Seq<u8>>>) -> Seq<Seq<u8>>
    decreases vs.len(),
{
    if vs.len() == 0 {
        seq![]
    } else {
        values_forms(vs.drop_last(), stds.drop_last()) + value_forms(vs.last(), stds.last())
    }
}

/// For each form, its base64 text (no padding) and its uppercase
/// hexadecimal text.
pub open spec fn encodings(forms: Seq<Seq<u8>>) -> Seq<Seq<u8>>
    decreases forms.len(),
{
    if forms.len() == 0 {
        seq![]
    } else {
        encodings(forms.drop_last()) + seq![
            base64_no_pad_encoded(forms.last()),
            hex_text(forms.last(), true),
        ]
    }
}

/// The forms followed by their encodings.
pub open spec fn with_encodings(forms: Seq<Seq<u8>>) -> Seq<Seq<u8>> {
    forms + encodings(forms)
}

/// The values of an item cannot make hexadecimal decoding panic: no value of
/// more than eight bytes and of even length has a pair of bytes that is cut
/// inside a character before an invalid pair stops the decoding.
pub open spec fn decodable_values(vs: Seq<Seq<char>>) -> bool {
    forall|j: int|
        0 <= j < vs.len() ==> {
            let b = #[trigger] encode_utf8(vs[j]);
            b.len() > 8 && b.len() % 2 == 0 ==> !(hex_decode_from(b, 0) is Panics)
        }
}

pub open spec fn form_table_views(t: Seq<Vec<Vec<Vec<u8>>>>) -> Seq<Seq<Seq<Seq<u8>>>> {
    t.map_values(|x: Vec<Vec<Vec<u8>>>| x@.map_values(|y: Vec<Vec<u8>>| byte_views(y@)))
}

proof fn lemma_join_hex_pairs(parts: Seq<Seq<char>>)
    requires
        forall|i: int| 0 <= i < parts.len() ==> #[trigger] parts[i].len() == 2 && all_hex_chars(parts[i]),
    ensures
        join_pieces(parts).len() == 2 * parts.len(),
        is_ascii_chars(join_pieces(parts)),
    decreases parts.len(),
{
    if parts.len() > 0 {
        let init = parts.drop_last();
        assert forall|i: int| 0 <= i < init.len() implies #[trigger] init[i].len() == 2 && all_hex_chars(init[i]) by {
            assert(init[i] == parts[i]);
        }
        lemma_join_hex_pairs(init);
        let j = join_pieces(parts);
        let last = parts.last();
        assert(parts[parts.len() - 1].len() == 2 && all_hex_chars(parts[parts.len() - 1]));
        assert forall|k: int| 0 <= k < j.len() implies '\0' <= #[trigger] j[k] <= '\u{7f}' by {
            if k < join_pieces(init).len() {
                assert(j[k] == join_pieces(init)[k]);
            } else {
                assert(j[k] == last[k - join_pieces(init).len()]);
            }
        }
    }
}

proof fn lemma_ascii_pairs_no_panic(b: Seq<u8>, i: int)
    requires
        valid_utf8(b),
        forall|k: int| 0 <= k < b.len() ==> #[trigger] b[k] < 128,
        b.len() % 2 == 0,
        0 <= i,
        i % 2 == 0,
    ensures
        !(hex_decode_from(b, i) is Panics),
    decreases b.len() - i,
{
    if i < b.len() {
        is_char_boundary_iff_not_is_continuation_byte(b, i);
        if i + 2 < b.len() {
            is_char_boundary_iff_not_is_continuation_byte(b, i + 2);
        } else {
            is_char_boundary_start_end_of_seq(b);
        }
        lemma_ascii_pairs_no_panic(b, i + 2);
    }
}

/// Twelve hexadecimal digits, the text of a MAC address without its `:`,
/// decode without panicking.
pub proof fn lemma_mac_decodes(v: Seq<char>)
    requires
        is_mac_address_spec(v),
    ensures
        !(hex_decode_from(encode_utf8(without_char_spec(v, ':')), 0) is Panics),
{
    let parts = split_spec(v, ':');
    lemma_join_hex_pairs(parts);
    let j = without_char_spec(v, ':');
    let b = encode_utf8(j);
    is_ascii_chars_encode_utf8(j);
    encode_utf8_valid_utf8(j);
    assert forall|k: int| 0 <= k < b.len() implies #[trigger] b[k] < 128 by {
        assert(j[k] as u8 == b[k]);
        assert('\0' <= j[k] <= '\u{7f}');
    }
    lemma_ascii_pairs_no_panic(b, 0);
}

/// The text with every `c` taken out.
pub fn without_char(s: &str, c: char) -> (r: String)
    ensures
        r@ == without_char_spec(s@, c),
{
    let parts = split_char(s, c);
    let ghost ps = split_spec(s@, c);
    let mut r = String::new();
    let mut i: usize = 0;
    assert(ps.take(0) =~= Seq::<Seq<char>>::empty());
    while i < parts.len()
        invariant
            crate::text::str_views(parts@) == ps,
            i <= parts.len(),
            r@ == join_pieces(ps.take(i as int)),
        decreases parts.len() - i,
    {
        r.append(parts[i]);
        assert(ps.take(i + 1).drop_last() =~= ps.take(i as int));
        assert(ps[i as int] == parts@[i as int]@);
        i = i + 1;
    }
    assert(ps.take(parts.len() as int) =~= ps);
    r
}

/// The bytes of `n` in base 256 without leading zero bytes.
fn be_trimmed(n: u128) -> (r: Vec<u8>)
    ensures
        r@ == be_bytes(n as nat),
    decreases n,
{
    if n == 0 {
        Vec::new()
    } else {
        let mut v = be_trimmed(n / 256);
        v.push((n % 256) as u8);
        v
    }
}

/// Whether `decode_hex` would panic on `s`: a pair of bytes runs past the
/// end or is cut inside a character before an invalid pair ends the
/// decoding.
pub fn decode_hex_panics(s: &str) -> (r: bool)
    ensures
        r == (hex_decode_from(s.spec_bytes(), 0) is Panics),
{
    let ghost b = s.spec_bytes();
    let n = s.as_bytes().len();
    let mut i: usize = 0;
    while i < n
        invariant
            b == s.spec_bytes(),
            n == b.len(),
            i <= n,
            (hex_decode_from(b, 0) is Panics) == (hex_decode_from(b, i as int) is Panics),
        decreases n - i,
    {
        if n - i < 2 || !s.is_char_boundary(i) || !s.is_char_boundary(i + 2) {
            return true;
        }
        let pair = str_byte_range(s, i, i + 2);
        match u8_from_hex_text(pair) {
            Ok(_) => {
                i = i + 2;
            },
            Err(_) => {
                return false;
            },
        }
    }
    false
}

/// Appends one form.
fn push_form(out: &mut Vec<Vec<u8>>, f: Vec<u8>)
    ensures
        byte_views(final(out)@) == byte_views(old(out)@).push(f@),
{
    let ghost before = out@;
    out.push(f);
    assert(byte_views(out@) =~= byte_views(before).push(f@));
}

/// Appends copies of all the forms of `src`.
fn append_forms(out: &mut Vec<Vec<u8>>, src: &Vec<Vec<u8>>)
    ensures
        byte_views(final(out)@) == byte_views(old(out)@) + byte_views(src@),
{
    let mut i: usize = 0;
    while i < src.len()
        invariant
            i <= src.len(),
            byte_views(out@) == byte_views(old(out)@) + byte_views(src@).take(i as int),
        decreases src.len() - i,
    {
        push_form(out, copy_bytes(src[i].as_slice()));
        assert(byte_views(src@).take(i + 1) =~= byte_views(src@).take(i as int).push(src@[i as int]@));
        i = i + 1;
    }
    assert(byte_views(src@).take(src.len() as int) =~= byte_views(src@));
}

/// The forms of one value (see `value_forms`); `std_forms` are the forms
/// that std parses from it.
fn value_forms_of(v: &str, std_forms: &Vec<Vec<u8>>) -> (r: Vec<Vec<u8>>)
    requires
        v.spec_bytes().len() > 8 && v.spec_bytes().len() % 2 == 0 ==> !(hex_decode_from(
            v.spec_bytes(),
            0,
        ) is Panics),
    ensures
        byte_views(r@) == value_forms(v@, byte_views(std_forms@)),
{
    let mut values: Vec<Vec<u8>> = Vec::new();
    let ghost b = encode_utf8(v@);
    let ghost p1: Seq<Seq<u8>> = if is_mac_address_spec(v@) {
        opt_form(hex_decoded(encode_utf8(without_char_spec(v@, ':'))))
    } else {
        seq![]
    };
    if Leaks::is_mac_address(v) {
        let stripped = without_char(v, ':');
        proof {
            lemma_mac_decodes(v@);
        }
        match decode_hex(stripped.as_str()) {
            Ok(mac) => {
                push_form(&mut values, mac);
            },
            Err(_) => {},
        }
    }
    assert(byte_views(values@) =~= p1);
    let chars = chars_of(v);
    let ghost p2 = p1 + form_if(v@.contains(':'), encode_utf8(without_char_spec(v@, ':')));
    if find_char(&chars, ':').is_some() {
        let s = without_char(v, ':');
        push_form(&mut values, copy_bytes(s.as_str().as_bytes()));
    }
    assert(byte_views(values@) =~= p2);
    let ghost p3 = p2 + form_if(v@.contains('-'), encode_utf8(without_char_spec(v@, '-')));
    if find_char(&chars, '-').is_some() {
        let s = without_char(v, '-');
        push_form(&mut values, copy_bytes(s.as_str().as_bytes()));
    }
    assert(byte_views(values@) =~= p3);
    let hashes = Leaks::hash(v.as_bytes());
    append_forms(&mut values, &hashes);
    append_forms(&mut values, std_forms);
    let ghost p4 = p3 + leak_hashes(b) + byte_views(std_forms@) + large_number_form(v@);
    match parse_i128(v) {
        Some(n) => {
            if n > 0xffff_ffffi128 {
                push_form(&mut values, be_trimmed(n as u128));
            }
        },
        None => {},
    }
    assert(byte_views(values@) =~= p4);
    let ghost p5 = p4 + (if b.len() > 8 && b.len() % 2 == 0 {
        opt_form(hex_decoded(b))
    } else {
        seq![]
    });
    let blen = v.as_bytes().len();
    if blen > 8 && blen % 2 == 0 {
        match decode_hex(v) {
            Ok(h) => {
                push_form(&mut values, h);
            },
            Err(_) => {},
        }
    }
    assert(byte_views(values@) =~= p5);
    let lower = to_lowercase(v);
    push_form(&mut values, copy_bytes(lower.as_str().as_bytes()));
    assert(byte_views(values@) =~= value_forms(v@, byte_views(std_forms@)));
    values
}

/// Appends the base64 and uppercase hexadecimal text of each form to the
/// forms.
fn add_encodings(values: &mut Vec<Vec<u8>>)
    ensures
        byte_views(final(values)@) == with_encodings(byte_views(old(values)@)),
{
    let ghost forms = byte_views(values@);
    let n = values.len();
    let mut i: usize = 0;
    assert(forms.take(0) =~= Seq::<Seq<u8>>::empty());
    while i < n
        invariant
            n == forms.len(),
            forms == byte_views(old(values)@),
            i <= n,
            values@.len() >= n,
            byte_views(values@) == forms + encodings(forms.take(i as int)),
        decreases n - i,
    {
        assert(values@[i as int]@ == forms[i as int]) by {
            assert(byte_views(values@)[i as int] == values@[i as int]@);
        }
        let b64 = base64_no_pad_encode(values[i].as_slice());
        let hex = hex_encode(values[i].as_slice(), true);
        push_form(values, b64);
        push_form(values, hex);
        assert(forms.take(i + 1).drop_last() =~= forms.take(i as int));
        assert(forms.take(i + 1).last() == forms[i as int]);
        assert(byte_views(values@) =~= forms + encodings(forms.take(i + 1)));
        i = i + 1;
    }
    assert(forms.take(n as int) =~= forms);
}

/// The names of the items of a table, in order.
pub open spec fn table_names(table: Seq<(String, Vec<String>)>) -> Seq<Seq<char>> {
    table.map_values(|e: (String, Vec<String>)| e.0@)
}

impl Leaks {
    /// Builds the leak items from a table of item names and their values.
    /// For each value of an item its forms are collected (see `value_forms`;
    /// `std_forms[i][j]` holds the forms that std parses from the `j`-th
    /// value of the `i`-th item: its IPv4 and IPv6 octets and its big-endian
    /// `f64` and `f32` bytes, each where the value parses as one), and then
    /// the base64 and uppercase hexadecimal text of every collected form is
    /// added. Items keep the order of the table.
    pub fn from_table(table: &Vec<(String, Vec<String>)>, std_forms: &Vec<Vec<Vec<Vec<u8>>>>) -> (r: Leaks)
        requires
            std_forms.len() == table.len(),
            forall|i: int| 0 <= i < table.len() ==> #[trigger] std_forms@[i].len() == table@[i].1.len(),
            forall|i: int| 0 <= i < table.len() ==> decodable_values(string_views(#[trigger] table@[i].1@)),
        ensures
            r@.len() == table.len(),
            forall|i: int|
                0 <= i < table.len() ==> #[trigger] r@[i] == (
                    table@[i].0@,
                    with_encodings(values_forms(string_views(table@[i].1@), form_table_views(std_forms@)[i])),
                ),
            table_names(table@).no_duplicates() ==> item_names(r@).no_duplicates(),
    {
        let mut entries: Vec<(String, Vec<Vec<u8>>)> = Vec::new();
        let mut i: usize = 0;
        while i < table.len()
            invariant
                i <= table.len(),
                std_forms.len() == table.len(),
                forall|k: int| 0 <= k < table.len() ==> #[trigger] std_forms@[k].len() == table@[k].1.len(),
                forall|k: int| 0 <= k < table.len() ==> decodable_values(string_views(#[trigger] table@[k].1@)),
                entries.len() == i,
                forall|k: int|
                    0 <= k < i ==> #[trigger] entry_models(entries@)[k] == (
                        table@[k].0@,
                        with_encodings(values_forms(string_views(table@[k].1@), form_table_views(std_forms@)[k])),
                    ),
            decreases table.len() - i,
        {
            let key = &table[i].0;
            let vals = &table[i].1;
            let stds = &std_forms[i];
            let ghost vs = string_views(vals@);
            let ghost sf = form_table_views(std_forms@)[i as int];
            assert(sf == stds@.map_values(|y: Vec<Vec<u8>>| byte_views(y@)));
            let mut values: Vec<Vec<u8>> = Vec::new();
            let mut j: usize = 0;
            assert(vs.take(0) =~= Seq::<Seq<char>>::empty());
            assert(sf.take(0) =~= Seq::<Seq<Seq<u8>>>::empty());
            while j < vals.len()
                invariant
                    vs == string_views(vals@),
                    sf == stds@.map_values(|y: Vec<Vec<u8>>| byte_views(y@)),
                    stds.len() == vals.len(),
                    decodable_values(vs),
                    j <= vals.len(),
                    byte_views(values@) == values_forms(vs.take(j as int), sf.take(j as int)),
                decreases vals.len() - j,
            {
                let v = vals[j].as_str();
                assert(vs[j as int] == v@);
                assert(encode_utf8(vs[j as int]) == v.spec_bytes());
                let f = value_forms_of(v, &stds[j]);
                append_forms(&mut values, &f);
                assert(vs.take(j + 1).drop_last() =~= vs.take(j as int));
                assert(sf.take(j + 1).drop_last() =~= sf.take(j as int));
                assert(sf[j as int] == byte_views(stds@[j as int]@));
                j = j + 1;
            }
            assert(vs.take(vals.len() as int) =~= vs);
            assert(sf.take(vals.len() as int) =~= sf);
            add_encodings(&mut values);
            let ghost before = entries@;
            entries.push((key.clone(), values));
            assert(entry_models(entries@)[i as int] == entry_models(entries@)[i as int]);
            assert forall|k: int| 0 <= k < i implies #[trigger] entry_models(entries@)[k] == entry_models(before)[k] by {}
            i = i + 1;
        }
        let r = Leaks(entries);
        assert(r@ =~= entry_models(entries@));
        assert(item_names(r@) =~= table_names(table@));
        r
    }
}

} // verus!
