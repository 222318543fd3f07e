use base64::Engine;
use h3server::convert::{
    body_type, type_source,
    body_plaintext, decode_request, network_data_from_v2, record_from_request, record_from_v2, ConnectionInfoV2,
    RecordV2, RequestV2, StoredRequest,
};
use h3server::data::{
    find_closest, find_closest_network_connection, session_from_dump_name, AppData, CryptographicRecord,
    DataProvider, NetworkData,
};
use h3server::db::NetworkConnection;
use h3server::events::{DoFinalByte, Events, InitIntKey};
use h3server::session::trim;
use std::io::Write;

fn b64(data: &[u8]) -> String {
    base64::prelude::BASE64_STANDARD.encode(data)
}

fn record(is_encryption: bool, plaintext: &[u8], ciphertext: &[u8], ts: u128) -> CryptographicRecord {
    CryptographicRecord {
        is_encryption,
        plaintext: plaintext.to_vec(),
        ciphertext: ciphertext.to_vec(),
        key: vec![],
        hashcode: 1,
        timestamp: ts,
        algorithm: "AES".to_string(),
        importance: 0,
    }
}

#[test]
fn session_numbers_come_from_dump_names() {
    assert_eq!(session_from_dump_name("dump-abc-12.mitm"), Some(12));
    assert_eq!(session_from_dump_name("dump-7.mitm"), Some(7));
    assert_eq!(session_from_dump_name("x-12.mitm"), None);
    assert_eq!(session_from_dump_name("dump-abc-x.mitm"), None);
    assert_eq!(session_from_dump_name("dump-abc-12.txt"), None);
}

#[test]
fn data_provider_starts_empty() {
    let p = DataProvider::new("dir".to_string());
    assert_eq!(p.path, "dir");
    assert!(p.apps.is_empty());
}

#[test]
fn record_contains_matches_whole_blocks() {
    let block: Vec<u8> = (1u8..=16).collect();
    let mut ct = block.clone();
    ct.extend_from_slice(&[7u8; 8]);
    let r = record(true, b"plain", &ct, 0);
    let mut data = b"xx".to_vec();
    data.extend_from_slice(&block);
    assert!(r.contains(&data));
    let encoded = base64::prelude::BASE64_STANDARD_NO_PAD.encode(&block);
    assert!(r.contains(encoded.as_bytes()));
    assert!(!r.contains(&block[..15]));
    assert!(!r.contains(&[7u8; 32]));
    let same = record(true, &ct, &ct, 0);
    assert!(!same.contains(&data));
    let zero = record(true, b"p", &[0u8; 16], 0);
    assert!(!zero.contains(&[0u8; 32]));
}

#[test]
fn find_closest_takes_the_latest_not_after() {
    let a = record(true, b"a", b"b", 10);
    let b = record(true, b"a", b"b", 20);
    let c = record(true, b"a", b"b", 20);
    let found = find_closest(25, vec![&a, &b, &c]).unwrap();
    assert!(std::ptr::eq(found, &b));
    assert!(find_closest(5, vec![&a, &b]).is_none());
    assert!(find_closest(5, vec![]).is_none());
}

fn nc(ts: u128) -> NetworkConnection {
    NetworkConnection {
        src_addr: "s".to_string(),
        destination_addr: None,
        importance: 0,
        tid: 0,
        pid: 0,
        target: None,
        ts,
        leaks: vec![],
    }
}

#[test]
fn find_closest_network_connection_cases() {
    assert_eq!(find_closest_network_connection(25, vec![nc(10), nc(20), nc(30)]).unwrap().ts, 20);
    assert_eq!(find_closest_network_connection(1, vec![nc(10)]).unwrap().ts, 10);
    assert!(find_closest_network_connection(1, vec![nc(10), nc(20)]).is_none());
    assert!(find_closest_network_connection(1, vec![]).is_none());
}

fn init_key(hashcode: i64, opcode: i64, key: &[u8], ts: u128) -> Events {
    Events::InitIntKey(InitIntKey {
        class_name: "c".to_string(),
        method_name: "m".to_string(),
        hashcode,
        arg_opcode: opcode,
        arg_key: b64(key),
        algorithm: "AES".to_string(),
        pid: 1,
        tid: 1,
        uid: 1,
        package_name: "p".to_string(),
        ts,
        jtid: 0,
        importance: 3,
        stack_trace: String::new(),
    })
}

fn do_final(hashcode: i64, input: &[u8], output: &[u8], ts: u128) -> Events {
    Events::DoFinalByte(DoFinalByte {
        class_name: "c".to_string(),
        method_name: "m".to_string(),
        hashcode,
        arg_input: b64(input),
        ret: b64(output),
        algorithm: "AES".to_string(),
        pid: 1,
        tid: 1,
        uid: 1,
        package_name: "p".to_string(),
        ts,
        jtid: 0,
        importance: 0,
        stack_trace: String::new(),
    })
}

fn empty_data() -> NetworkData {
    NetworkData { pkg_name: "app".to_string(), records: vec![], timestamp: 0 }
}

#[test]
fn app_data_recovers_cipher_records() {
    let events = vec![
        Events::Other("first".to_string()),
        init_key(7, 1, b"key", 10),
        Events::Other("kept".to_string()),
        do_final(7, b"plain", b"cipher", 20),
    ];
    let app = AppData::new(empty_data(), events, Some("  pixel6\n".to_string()), 3);
    assert_eq!(app.device_id, Some("pixel6".to_string()));
    assert_eq!(app.session, 3);
    assert_eq!(app.events.len(), 2);
    assert_eq!(app.events[0], Events::Other("first".to_string()));
    assert_eq!(app.events[1], Events::Other("kept".to_string()));
    assert_eq!(app.cryptographic.len(), 1);
    let r = &app.cryptographic[0];
    assert!(r.is_encryption);
    assert_eq!(r.plaintext, b"plain".to_vec());
    assert_eq!(r.ciphertext, b"cipher".to_vec());
    assert_eq!(r.key, b"key".to_vec());
    assert_eq!(r.timestamp, 10);
    assert_eq!(r.importance, 3);
}

#[test]
fn the_first_event_is_never_examined() {
    let events = vec![init_key(7, 2, b"k", 10), Events::Other("x".to_string())];
    let app = AppData::new(empty_data(), events, None, 0);
    assert_eq!(app.events.len(), 2);
    assert!(app.cryptographic.is_empty());
    assert_eq!(app.device_id, None);
}

#[test]
fn decryption_records_take_the_output_as_plaintext() {
    let events = vec![Events::Other("a".to_string()), init_key(9, 2, b"k", 1), do_final(9, b"ct", b"pt", 5)];
    let app = AppData::new(empty_data(), events, None, 0);
    let r = &app.cryptographic[0];
    assert!(!r.is_encryption);
    assert_eq!(r.plaintext, b"pt".to_vec());
    assert_eq!(r.ciphertext, b"ct".to_vec());
}

#[test]
fn calls_go_to_the_latest_record_not_after_them() {
    let events = vec![
        Events::Other("a".to_string()),
        init_key(9, 1, b"k1", 1),
        init_key(9, 1, b"k2", 10),
        do_final(9, b"early", b"x", 5),
        do_final(9, b"late", b"y", 20),
    ];
    let app = AppData::new(empty_data(), events, None, 0);
    assert_eq!(app.cryptographic.len(), 2);
    let early = app.cryptographic.iter().find(|r| r.key == b"k1".to_vec()).unwrap();
    let late = app.cryptographic.iter().find(|r| r.key == b"k2".to_vec()).unwrap();
    assert_eq!(early.plaintext, b"early".to_vec());
    assert_eq!(late.plaintext, b"late".to_vec());
}

#[test]
fn trim_drops_surrounding_white_space() {
    assert_eq!(trim("  a b \t\n"), "a b");
    assert_eq!(trim("\u{3000}x\u{a0}"), "x");
    assert_eq!(trim(" \n "), "");
    assert_eq!(trim(trim(" y ")), trim(" y "));
}

fn gzip(data: &[u8]) -> Vec<u8> {
    let mut e = flate2::write::GzEncoder::new(Vec::new(), flate2::Compression::default());
    e.write_all(data).unwrap();
    e.finish().unwrap()
}

fn deflate(data: &[u8]) -> Vec<u8> {
    let mut e = flate2::write::DeflateEncoder::new(Vec::new(), flate2::Compression::default());
    e.write_all(data).unwrap();
    e.finish().unwrap()
}

fn pairs(v: &[(&str, &str)]) -> Vec<(String, String)> {
    v.iter().map(|(a, b)| (a.to_string(), b.to_string())).collect()
}

#[test]
fn decode_request_undoes_content_encodings() {
    let h = pairs(&[("content-encoding", "GZIP"), ("x", "1")]);
    let (hs, body) = decode_request(&h, &gzip(b"text")).unwrap();
    assert_eq!(hs, pairs(&[("x", "1")]));
    assert_eq!(body, b"text".to_vec());
    let h = pairs(&[("content-encoding", "deflate")]);
    assert_eq!(decode_request(&h, &deflate(b"abc")).unwrap().1, b"abc".to_vec());
    let h = pairs(&[("content-encoding", "zstd")]);
    assert_eq!(decode_request(&h, &zstd::encode_all(&b"zz"[..], 1).unwrap()).unwrap().1, b"zz".to_vec());
    // a brotli stream of one uncompressed meta-block holding "ab"
    let br = vec![0x10u8, 0x00, 0x10, b'a', b'b', 0x03];
    let h = pairs(&[("content-encoding", "br")]);
    assert_eq!(decode_request(&h, &br).unwrap().1, b"ab".to_vec());
    let h = pairs(&[("content-encoding", "identity"), ("y", "2")]);
    let (hs, body) = decode_request(&h, &b"raw".to_vec()).unwrap();
    assert_eq!(hs, pairs(&[("y", "2")]));
    assert_eq!(body, b"raw".to_vec());
}

#[test]
fn decode_request_keeps_undecodable_bodies_and_skips_unknown_encodings() {
    let h = pairs(&[("content-encoding", "gzip")]);
    let (hs, body) = decode_request(&h, &b"not gzip".to_vec()).unwrap();
    assert_eq!(hs, h);
    assert_eq!(body, b"not gzip".to_vec());
    let h = pairs(&[("content-encoding", "msl_v1")]);
    assert!(decode_request(&h, &b"x".to_vec()).is_none());
    let h = pairs(&[("accept", "*/*")]);
    assert_eq!(decode_request(&h, &b"x".to_vec()).unwrap().0, h);
}

fn v2(app: &str, enc: Option<&str>, body: &[u8], ts: u64) -> RecordV2 {
    let mut header = pairs(&[("host", "h")]);
    if let Some(e) = enc {
        header.push(("content-encoding".to_string(), e.to_string()));
    }
    RecordV2 {
        request_v2: RequestV2 { method: "POST".to_string(), path: "/p".to_string(), header, body: body.to_vec() },
        conn_info_v2: ConnectionInfoV2 {
            source_addr: "src".to_string(),
            dest_addr: "dst".to_string(),
            is_tls: true,
            timestamp: ts,
        },
        app: app.to_string(),
        withquic: false,
        time_stamp: ts,
    }
}

#[test]
fn stored_flows_become_records() {
    let rec = record_from_v2(&v2("a", None, b"body", 5)).unwrap();
    let q = rec.request.unwrap();
    assert_eq!(q.method, "POST");
    assert_eq!(q.path, "/p");
    assert_eq!(q.headers.len(), 1);
    assert_eq!(q.headers[0].key, "host");
    assert_eq!(q.body, b"body".to_vec());
    assert!(rec.response.is_none());
    let ci = rec.connection_info.unwrap();
    assert_eq!(ci.source_address, "src");
    assert_eq!(ci.destination_address, "dst");
    assert_eq!(ci.timestamp, 5);
    assert!(record_from_v2(&v2("a", Some("br2"), b"x", 1)).is_none());
}

#[test]
fn network_data_takes_the_last_kept_flow() {
    let rs = vec![v2("a", None, b"1", 1), v2("b", None, b"2", 2), v2("c", Some("weird"), b"3", 3)];
    let nd = network_data_from_v2(&rs);
    assert_eq!(nd.records.len(), 2);
    assert_eq!(nd.pkg_name, "b");
    assert_eq!(nd.timestamp, 2);
    let empty = network_data_from_v2(&vec![]);
    assert_eq!(empty.pkg_name, "");
    assert_eq!(empty.timestamp, 0);
}

#[test]
fn stored_requests_have_unknown_addresses() {
    let req = StoredRequest {
        app: "a".to_string(),
        withquic: false,
        uri: "/u".to_string(),
        method: "GET".to_string(),
        version: "HTTP/2".to_string(),
        header: pairs(&[("k", "v")]),
        body: b"b".to_vec(),
        bodytype: None,
        bodyplaintext: None,
        tls: true,
        time: 9,
    };
    let rec = record_from_request(&req);
    let ci = rec.connection_info.unwrap();
    assert_eq!(ci.source_address, "None");
    assert_eq!(ci.destination_address, "None");
    assert!(ci.tls);
    assert_eq!(ci.timestamp, 9);
    assert_eq!(rec.request.unwrap().path, "/u");
}

#[test]
fn plaintext_bodies_are_kept_for_text() {
    assert_eq!(body_plaintext(&Some("text/plain".to_string()), b"hi".to_vec()), Some("hi".to_string()));
    assert_eq!(body_plaintext(&Some("text/plain".to_string()), vec![0xff, 0xfe]), None);
    assert_eq!(body_plaintext(&Some("application/json".to_string()), b"{}".to_vec()), None);
    assert_eq!(body_plaintext(&None, b"hi".to_vec()), None);
}

#[test]
fn body_types_are_detected_on_decoded_bytes() {
    let none: Vec<(String, String)> = Vec::new();
    assert_eq!(type_source(&none, &b"raw".to_vec()), Some(b"raw".to_vec()));
    let gz = pairs(&[("content-encoding", "gzip")]);
    assert_eq!(type_source(&gz, &gzip(b"inner")), Some(b"inner".to_vec()));
    assert_eq!(type_source(&gz, &b"not gzip".to_vec()), None);
    let df = pairs(&[("content-encoding", "deflate")]);
    assert_eq!(type_source(&df, &deflate(b"flat")), Some(b"flat".to_vec()));
    let br = pairs(&[("content-encoding", "br")]);
    assert_eq!(type_source(&br, &b"x".to_vec()), None);
    assert!(body_type(&br, &b"x".to_vec()).is_none());
    assert!(body_type(&gz, &gzip(b"inner")).is_some());
}
