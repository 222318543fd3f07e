use h3server::data::{
    ConnectionInfo, CryptographicRecord, Header, NetworkData, Record, Request, Response,
};
use h3server::db::Leak;
use h3server::forms::{decode_hex_panics, without_char};
use h3server::leak::{decode_hex, is_sub, Leaks};
use std::io::Write;
use std::sync::Arc;

fn gzip(data: &[u8]) -> Vec<u8> {
    let mut e = flate2::write::GzEncoder::new(Vec::new(), flate2::Compression::default());
    e.write_all(data).unwrap();
    e.finish().unwrap()
}

fn items(list: &[(&str, &[&[u8]])]) -> Leaks {
    Leaks(
        list.iter()
            .map(|(k, vs)| (k.to_string(), vs.iter().map(|v| v.to_vec()).collect()))
            .collect(),
    )
}

#[test]
fn is_sub_finds_contiguous_parts() {
    assert!(is_sub(b"hello world", b"lo w"));
    assert!(is_sub(b"abcabd", b"abd"));
    assert!(!is_sub(b"abc", b"abd"));
    assert!(!is_sub(b"ab", b"abc"));
    assert!(!is_sub(b"", b"a"));
}

#[test]
fn is_sub_trivial_cases() {
    assert!(is_sub(b"abc", b""));
    assert!(is_sub(b"", b""));
    assert!(is_sub(b"abc", b"abc"));
}

#[test]
fn is_sub_survives_extension() {
    assert!(is_sub(b"ell", b"ell"));
    assert!(is_sub(b"xxhelloyy", b"ell"));
}

#[test]
fn decode_hex_reads_pairs() {
    assert_eq!(decode_hex("48656c6c6f").unwrap(), b"Hello".to_vec());
    assert_eq!(decode_hex("FF00").unwrap(), vec![255u8, 0u8]);
    assert_eq!(decode_hex("").unwrap(), Vec::<u8>::new());
}

#[test]
fn decode_hex_rejects_non_hex() {
    assert!(decode_hex("zz").is_err());
    assert!(decode_hex("4g").is_err());
}

#[test]
fn decode_hex_panic_cases_are_detected() {
    assert!(decode_hex_panics("abc"));
    assert!(decode_hex_panics("\u{20ac}\u{20ac}"));
    assert!(!decode_hex_panics("zzz"));
    assert!(!decode_hex_panics("0a0b"));
    assert!(!decode_hex_panics(""));
}

#[test]
fn hash_gives_digests_and_their_hex() {
    let h = Leaks::hash(b"abc");
    assert_eq!(h.len(), 6);
    assert_eq!(
        h[1],
        b"ba7816bf8f01cfea414140de5dae2223b00361a396177a9cb410ff61f20015ad".to_vec()
    );
    assert_eq!(h[3], b"a9993e364706816aba3e25717850c26c9cd0d89d".to_vec());
    assert_eq!(h[5], b"900150983cd24fb0d6963f7d28e17f72".to_vec());
    assert_eq!(h[0].len(), 32);
    assert_eq!(h[2].len(), 20);
    assert_eq!(h[4].len(), 16);
}

#[test]
fn hex_text_of_digests_decodes_back() {
    let h = Leaks::hash(b"device");
    for k in [0usize, 2, 4] {
        let text = String::from_utf8(h[k + 1].clone()).unwrap();
        assert_eq!(decode_hex(&text).unwrap(), h[k]);
    }
}

#[test]
fn mac_addresses_are_recognised() {
    assert!(Leaks::is_mac_address("aa:bb:cc:dd:ee:ff"));
    assert!(Leaks::is_mac_address("00:1A:2b:3C:4d:5E"));
    assert!(!Leaks::is_mac_address("aa:bb:cc:dd:ee"));
    assert!(!Leaks::is_mac_address("aa:bb:cc:dd:ee:fg"));
    assert!(!Leaks::is_mac_address("aaa:bb:cc:dd:ee:ff"));
    assert!(!Leaks::is_mac_address(""));
}

#[test]
fn without_char_drops_every_occurrence() {
    assert_eq!(without_char("a:b::c", ':'), "abc");
    assert_eq!(without_char("abc", ':'), "abc");
    assert_eq!(without_char("", '-'), "");
}

#[test]
fn contains_finds_values_and_lowercased_chunks() {
    let leaks = items(&[("imei", &[b"123456"]), ("name", &[b"alice"])]);
    assert_eq!(leaks.contains(b"id=123456&x", false), vec!["imei".to_string()]);
    assert_eq!(leaks.contains(b"USER=ALICE", false), vec!["name".to_string()]);
    assert_eq!(
        leaks.contains(b"alice 123456", false),
        vec!["imei".to_string(), "name".to_string()]
    );
    assert!(leaks.contains(b"nothing here", false).is_empty());
}

#[test]
fn contains_of_empty_chunk_is_empty() {
    let leaks = items(&[("any", &[b""])]);
    assert!(leaks.contains(b"", false).is_empty());
    assert!(leaks.contains(b"", true).is_empty());
    assert_eq!(leaks.contains(b"x", false), vec!["any".to_string()]);
}

#[test]
fn contains_skips_values_longer_than_the_chunk() {
    let leaks = items(&[("long", &[b"abcdef"])]);
    assert!(leaks.contains(b"abc", false).is_empty());
}

#[test]
fn unpack_as_undoes_gzip() {
    let gz = gzip(b"secret 123456");
    assert_eq!(Leaks::unpack_as(&gz, "application/gzip"), b"secret 123456".to_vec());
    let leaks = items(&[("imei", &[b"123456"])]);
    assert!(leaks.contains(&gz, false).is_empty());
    assert_eq!(
        leaks.contains_in(&Leaks::unpack_as(&gz, "application/gzip")),
        vec!["imei".to_string()]
    );
}

#[test]
fn unpack_as_undoes_zstd() {
    let z = zstd::encode_all(&b"zstd body"[..], 3).unwrap();
    assert_eq!(Leaks::unpack_as(&z, "application/zstd"), b"zstd body".to_vec());
}

#[test]
fn unpack_as_lists_zip_entries() {
    let mut w = zip::ZipWriter::new(std::io::Cursor::new(Vec::new()));
    let options = zip::write::SimpleFileOptions::default().compression_method(zip::CompressionMethod::Stored);
    w.start_file("a.txt", options).unwrap();
    w.write_all(b"first").unwrap();
    w.start_file("b.txt", options).unwrap();
    w.write_all(b"second").unwrap();
    let data = w.finish().unwrap().into_inner();
    assert_eq!(Leaks::unpack_as(&data, "application/zip"), b"a.txtfirstb.txtsecond".to_vec());
    assert!(Leaks::unpack_as(b"not a zip", "application/zip").is_empty());
}

#[test]
fn unpack_as_keeps_other_data() {
    assert_eq!(Leaks::unpack_as(b"plain", "text/plain"), b"plain".to_vec());
}

#[test]
fn from_table_collects_forms_then_encodings() {
    let table = vec![("id".to_string(), vec!["ab:cd".to_string()])];
    let std_forms = vec![vec![vec![]]];
    let leaks = Leaks::from_table(&table, &std_forms);
    assert_eq!(leaks.0.len(), 1);
    let (name, values) = &leaks.0[0];
    assert_eq!(name, "id");
    assert_eq!(values.len(), 24);
    assert_eq!(values[0], b"abcd".to_vec());
    assert_eq!(values[7], b"ab:cd".to_vec());
    assert_eq!(values[8], b"YWJjZA".to_vec());
    assert_eq!(values[9], b"61626364".to_vec());
}

#[test]
fn from_table_decodes_mac_addresses_and_large_numbers() {
    let table = vec![
        ("mac".to_string(), vec!["AA:BB:CC:DD:EE:FF".to_string()]),
        ("num".to_string(), vec!["5000000000".to_string()]),
    ];
    let std_forms = vec![vec![vec![]], vec![vec![vec![9u8]]]];
    let leaks = Leaks::from_table(&table, &std_forms);
    let mac = &leaks.0[0].1;
    assert_eq!(mac[0], vec![0xAAu8, 0xBB, 0xCC, 0xDD, 0xEE, 0xFF]);
    assert_eq!(mac[1], b"AABBCCDDEEFF".to_vec());
    assert_eq!(*mac.last().unwrap(), b"61613A62623A63633A64643A65653A6666".to_vec());
    assert_eq!(mac.len(), 27);
    let num = &leaks.0[1].1;
    assert_eq!(num[6], vec![9u8]);
    assert_eq!(num[7], vec![0x01u8, 0x2A, 0x05, 0xF2, 0x00]);
    assert_eq!(num[8], vec![0x50u8, 0x00, 0x00, 0x00, 0x00]);
    assert_eq!(num[9], b"5000000000".to_vec());
}

fn record_with(request: Option<Request>, info: Option<ConnectionInfo>) -> Record {
    Record { request, response: None, websocket: vec![], connection_info: info }
}

fn info(src: &str, ts: u64) -> ConnectionInfo {
    ConnectionInfo {
        source_address: src.to_string(),
        destination_address: "server:443".to_string(),
        tls: true,
        timestamp: ts,
    }
}

#[test]
fn extract_leaks_reports_sent_items() {
    let leaks = items(&[("imei", &[b"123456"])]);
    let req = Request {
        method: "GET".to_string(),
        path: "/".to_string(),
        headers: vec![Header { key: "x-id".to_string(), value: "123456".to_string() }],
        trailers: vec![],
        body: vec![],
    };
    let data = NetworkData {
        pkg_name: "app".to_string(),
        records: vec![record_with(Some(req), Some(info("1.2.3.4:5", 7))), record_with(None, None)],
        timestamp: 0,
    };
    let out = leaks.extract_leaks(&data, Arc::new(vec![]));
    assert_eq!(out.len(), 2);
    assert_eq!(
        out[0].0,
        vec![Leak { leak: "imei".to_string(), is_send: true, is_encrypted: false, connection_id: i32::MAX }]
    );
    assert_eq!(out[0].1, info("1.2.3.4:5", 7));
    assert!(out[1].0.is_empty());
    assert_eq!(out[1].1, ConnectionInfo::default());
}

#[test]
fn extract_leaks_reports_received_items() {
    let leaks = items(&[("email", &[b"a@b.c"])]);
    let resp = Response { status_code: 200, headers: vec![], trailers: vec![], body: b"to a@b.c".to_vec() };
    let data = NetworkData {
        pkg_name: "app".to_string(),
        records: vec![Record {
            request: None,
            response: Some(resp),
            websocket: vec![],
            connection_info: Some(info("s", 1)),
        }],
        timestamp: 0,
    };
    let out = leaks.extract_leaks(&data, Arc::new(vec![]));
    assert_eq!(
        out[0].0,
        vec![Leak { leak: "email".to_string(), is_send: false, is_encrypted: false, connection_id: i32::MAX }]
    );
}

#[test]
fn extract_leaks_looks_into_matching_plaintexts() {
    let leaks = items(&[("imei", &[b"123456"])]);
    let ciphertext: Vec<u8> = (1u8..=16).collect();
    let crypto = CryptographicRecord {
        is_encryption: true,
        plaintext: b"imei=123456".to_vec(),
        ciphertext: ciphertext.clone(),
        key: vec![],
        hashcode: 1,
        timestamp: 0,
        algorithm: "AES".to_string(),
        importance: 0,
    };
    let mut body = b"data:".to_vec();
    body.extend_from_slice(&ciphertext);
    let req = Request { method: "POST".to_string(), path: "/".to_string(), headers: vec![], trailers: vec![], body };
    let data = NetworkData {
        pkg_name: "app".to_string(),
        records: vec![record_with(Some(req), Some(info("s", 1)))],
        timestamp: 0,
    };
    let out = leaks.extract_leaks(&data, Arc::new(vec![crypto]));
    assert_eq!(
        out[0].0,
        vec![Leak { leak: "imei".to_string(), is_send: true, is_encrypted: true, connection_id: i32::MAX }]
    );
}

#[test]
fn no_items_find_no_leaks() {
    let leaks = Leaks(vec![]);
    let req = Request {
        method: "GET".to_string(),
        path: "/".to_string(),
        headers: vec![Header { key: "k".to_string(), value: "v".to_string() }],
        trailers: vec![],
        body: b"anything".to_vec(),
    };
    let data = NetworkData {
        pkg_name: "app".to_string(),
        records: vec![record_with(Some(req), Some(info("s", 1)))],
        timestamp: 0,
    };
    let out = leaks.extract_leaks(&data, Arc::new(vec![]));
    assert!(out[0].0.is_empty());
}

#[test]
fn more_items_find_more_names() {
    let small = items(&[("imei", &[b"111"])]);
    let large = items(&[("mac", &[b"aa"]), ("imei", &[b"111", b"222"])]);
    let found = small.contains(b"x111x", false);
    assert_eq!(found, vec!["imei".to_string()]);
    assert_eq!(large.contains(b"x111x", false), vec!["imei".to_string()]);
    assert_eq!(large.contains(b"aa 222", false), vec!["mac".to_string(), "imei".to_string()]);
}

#[test]
fn a_name_is_found_once() {
    let leaks = items(&[("imei", &[b"111", b"222"])]);
    assert_eq!(leaks.contains(b"111 222", false), vec!["imei".to_string()]);
}
