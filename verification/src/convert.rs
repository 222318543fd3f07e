//! Turning the requests stored by the proxies into recorded flows, and the
//! body facts that are stored beside them.
use crate::data::{ConnectionInfo, Header, NetworkData, Record, Request};
use crate::db::pair_views;
use crate::external::{
    brotli_decoded, brotli_read_all, deflate_decoded, deflate_read_all, gzip_decoded, gzip_read_all,
    lowercase_of, mime_type_of, string_from_utf8, to_lowercase, zstd_decoded, zstd_read_all,
};
use crate::leak::copy_bytes;
use crate::text::str_eq;
use vstd::prelude::*;
use vstd::string::StringExecFns;
use vstd::utf8::{decode_utf8, valid_utf8};

verus! {

/// A request as the proxies store it (without its database id).
pub struct StoredRequest {
    pub app: String,
    pub withquic: bool,
    pub uri: String,
    pub method: String,
    pub version: String,
    /// the headers, each name once
    pub header: Vec<(String, String)>,
    pub body: Vec<u8>,
    pub bodytype: Option<String>,
    pub bodyplaintext: Option<String>,
    pub tls: bool,
    pub time: u64,
}

/// A request of a stored flow (second layout).
pub struct RequestV2 {
    pub method: String,
    pub path: String,
    /// the headers, each name once
    pub header: Vec<(String, String)>,
    pub body: Vec<u8>,
}

/// The connection of a stored flow (second layout).
pub struct ConnectionInfoV2 {
    pub source_addr: String,
    pub dest_addr: String,
    pub is_tls: bool,
    pub timestamp: u64,
}

/// A stored flow (second layout).
pub struct RecordV2 {
    pub request_v2: RequestV2,
    pub conn_info_v2: ConnectionInfoV2,
    pub app: String,
    pub withquic: bool,
    pub time_stamp: u64,
}

pub open spec fn header_views(hs: Seq<Header>) -> Seq<(Seq<char>, Seq<char>)> {
    hs.map_values(|h: Header| (h.key@, h.value@))
}

/// The value of the header `k`, where there is one.
pub open spec fn header_value(hs: Seq<(Seq<char>, Seq<char>)>, k: Seq<char>) -> Option<Seq<char>>
    decreases hs.len(),
{
    if hs.len() == 0 {
        None
    } else if hs.last().0 == k {
        Some(hs.last().1)
    } else {
        header_value(hs.drop_last(), k)
    }
}

/// The headers without `k`.
pub open spec fn without_header(hs: Seq<(Seq<char>, Seq<char>)>, k: Seq<char>) -> Seq<(Seq<char>, Seq<char>)>
    decreases hs.len(),
{
    if hs.len() == 0 {
        seq![]
    } else if hs.last().0 == k {
        without_header(hs.drop_last(), k)
    } else {
        without_header(hs.drop_last(), k).push(hs.last())
    }
}

/// What a content encoding does to a stored body.
pub enum BodyDecoding {
    /// the body is decoded (or the encoding is `identity`): the body is
    /// replaced and the encoding header dropped
    Decoded(Seq<u8>),
    /// decoding failed: the flow is kept as it is
    Unchanged,
    /// an encoding that is not handled: the flow is left out
    Skip,
}

/// How the body is decoded for a content encoding (in any case): gzip,
/// deflate, brotli and zstd are decoded where their decoder succeeds.
pub open spec fn decode_outcome(encoding: Seq<char>, body: Seq<u8>) -> BodyDecoding {
    let e = lowercase_of(encoding);
    if e == "gzip"@ {
        if gzip_decoded(body).1 { BodyDecoding::Decoded(gzip_decoded(body).0) } else { BodyDecoding::Unchanged }
    } else if e == "deflate"@ {
        if deflate_decoded(body).1 { BodyDecoding::Decoded(deflate_decoded(body).0) } else { BodyDecoding::Unchanged }
    } else if e == "identity"@ {
        BodyDecoding::Decoded(body)
    } else if e == "br"@ {
        if brotli_decoded(body).1 { BodyDecoding::Decoded(brotli_decoded(body).0) } else { BodyDecoding::Unchanged }
    } else if e == "zstd"@ {
        if zstd_decoded(body).1 { BodyDecoding::Decoded(zstd_decoded(body).0) } else { BodyDecoding::Unchanged }
    } else {
        BodyDecoding::Skip
    }
}

/// The headers and body of a request after its content encoding is undone,
/// or `None` where the flow is left out.
pub open spec fn decoded_request(hs: Seq<(Seq<char>, Seq<char>)>, body: Seq<u8>) -> Option<
    (Seq<(Seq<char>, Seq<char>)>, Seq<u8>),
> {
    match header_value(hs, "content-encoding"@) {
        None => Some((hs, body)),
        Some(e) => match decode_outcome(e, body) {
            BodyDecoding::Decoded(b) => Some((without_header(hs, "content-encoding"@), b)),
            BodyDecoding::Unchanged => Some((hs, body)),
            BodyDecoding::Skip => None,
        },
    }
}

/// The record holds the request and connection, and nothing else.
pub open spec fn record_shape(
    rec: Record,
    method: Seq<char>,
    path: Seq<char>,
    hs: Seq<(Seq<char>, Seq<char>)>,
    body: Seq<u8>,
    src: Seq<char>,
    dst: Seq<char>,
    tls: bool,
    ts: u64,
) -> bool {
    &&& rec.request matches Some(q) && {
        &&& q.method@ == method
        &&& q.path@ == path
        &&& header_views(q.headers@) == hs
        &&& q.trailers@.len() == 0
        &&& q.body@ == body
    }
    &&& rec.response is None
    &&& rec.websocket@.len() == 0
    &&& rec.connection_info matches Some(ci) && {
        &&& ci.source_address@ == src
        &&& ci.destination_address@ == dst
        &&& ci.tls == tls
        &&& ci.timestamp == ts
    }
}

/// The headers as a list of headers.
fn headers_of(hs: &Vec<(String, String)>) -> (r: Vec<Header>)
    ensures
        header_views(r@) == pair_views(hs@),
{
    let mut r: Vec<Header> = Vec::new();
    let mut i: usize = 0;
    while i < hs.len()
        invariant
            i <= hs.len(),
            header_views(r@) == pair_views(hs@).take(i as int),
        decreases hs.len() - i,
    {
        let ghost before = r@;
        let a = hs[i].0.clone();
        let b = hs[i].1.clone();
        r.push(Header { key: a, value: b });
        assert(header_views(r@) =~= header_views(before).push((a@, b@)));
        assert(pair_views(hs@)[i as int] == (a@, b@));
        assert(header_views(r@) =~= pair_views(hs@).take(i + 1));
        i = i + 1;
    }
    assert(pair_views(hs@).take(hs.len() as int) =~= pair_views(hs@));
    r
}

/// The value of the header `k`, where there is one.
fn find_header(hs: &Vec<(String, String)>, k: &str) -> (r: Option<String>)
    ensures
        match r {
            Some(v) => header_value(pair_views(hs@), k@) == Some(v@),
            None => header_value(pair_views(hs@), k@) is None,
        },
{
    let ghost pv = pair_views(hs@);
    let mut i = hs.len();
    assert(pv.take(i as int) =~= pv);
    while i > 0
        invariant
            i <= hs.len(),
            pv == pair_views(hs@),
            header_value(pv, k@) == header_value(pv.take(i as int), k@),
        decreases i,
    {
        assert(pv.take(i as int).drop_last() =~= pv.take(i - 1));
        assert(pv.take(i as int).last() == pv[i - 1]);
        if str_eq(hs[i - 1].0.as_str(), k) {
            return Some(hs[i - 1].1.clone());
        }
        i = i - 1;
    }
    None
}

/// The headers without `k`.
fn drop_header(hs: &Vec<(String, String)>, k: &str) -> (r: Vec<(String, String)>)
    ensures
        pair_views(r@) == without_header(pair_views(hs@), k@),
{
    let ghost pv = pair_views(hs@);
    let mut r: Vec<(String, String)> = Vec::new();
    let mut i: usize = 0;
    assert(pv.take(0) =~= Seq::<(Seq<char>, Seq<char>)>::empty());
    while i < hs.len()
        invariant
            i <= hs.len(),
            pv == pair_views(hs@),
            pair_views(r@) == without_header(pv.take(i as int), k@),
        decreases hs.len() - i,
    {
        assert(pv.take(i + 1).drop_last() =~= pv.take(i as int));
        assert(pv.take(i + 1).last() == pv[i as int]);
        if !str_eq(hs[i].0.as_str(), k) {
            let ghost before = r@;
            r.push((hs[i].0.clone(), hs[i].1.clone()));
            assert(pair_views(r@) =~= pair_views(before).push(pv[i as int]));
        }
        i = i + 1;
    }
    assert(pv.take(hs.len() as int) =~= pv);
    r
}

fn copy_pairs(hs: &Vec<(String, String)>) -> (r: Vec<(String, String)>)
    ensures
        pair_views(r@) == pair_views(hs@),
{
    let mut r: Vec<(String, String)> = Vec::new();
    let mut i: usize = 0;
    while i < hs.len()
        invariant
            i <= hs.len(),
            pair_views(r@) == pair_views(hs@).take(i as int),
        decreases hs.len() - i,
    {
        let ghost before = r@;
        let a = hs[i].0.clone();
        let b = hs[i].1.clone();
        r.push((a, b));
        assert(pair_views(r@) =~= pair_views(before).push((a@, b@)));
        assert(pair_views(hs@)[i as int] == (a@, b@));
        assert(pair_views(r@) =~= pair_views(hs@).take(i + 1));
        i = i + 1;
    }
    assert(pair_views(hs@).take(hs.len() as int) =~= pair_views(hs@));
    r
}

/// Undoes a request's content encoding (see `decoded_request`).
pub fn decode_request(header: &Vec<(String, String)>, body: &Vec<u8>) -> (r: Option<(Vec<(String, String)>, Vec<u8>)>)
    ensures
        match decoded_request(pair_views(header@), body@) {
            None => r is None,
            Some((hs, b)) => r matches Some(x) && pair_views(x.0@) == hs && x.1@ == b,
        },
{
    match find_header(header, "content-encoding") {
        None => Some((copy_pairs(header), copy_bytes(body.as_slice()))),
        Some(enc) => {
            let e = to_lowercase(enc.as_str());
            let decoded: Option<Option<Vec<u8>>> = if str_eq(e.as_str(), "gzip") {
                let (text, ok) = gzip_read_all(body.as_slice());
                Some(if ok { Some(text) } else { None })
            } else if str_eq(e.as_str(), "deflate") {
                let (text, ok) = deflate_read_all(body.as_slice());
                Some(if ok { Some(text) } else { None })
            } else if str_eq(e.as_str(), "identity") {
                Some(Some(copy_bytes(body.as_slice())))
            } else if str_eq(e.as_str(), "br") {
                let (text, ok) = brotli_read_all(body.as_slice());
                Some(if ok { Some(text) } else { None })
            } else if str_eq(e.as_str(), "zstd") {
                let (text, ok) = zstd_read_all(body.as_slice());
                Some(if ok { Some(text) } else { None })
            } else {
                None
            };
            match decoded {
                None => None,
                Some(None) => Some((copy_pairs(header), copy_bytes(body.as_slice()))),
                Some(Some(text)) => Some((drop_header(header, "content-encoding"), text)),
            }
        },
    }
}

/// The flow recorded for a stored flow, with its request's content encoding
/// undone; `None` where the encoding is not handled (see `decoded_request`).
pub fn record_from_v2(r: &RecordV2) -> (out: Option<Record>)
    ensures
        match decoded_request(pair_views(r.request_v2.header@), r.request_v2.body@) {
            None => out is None,
            Some((hs, b)) => out matches Some(rec) && record_shape(
                rec,
                r.request_v2.method@,
                r.request_v2.path@,
                hs,
                b,
                r.conn_info_v2.source_addr@,
                r.conn_info_v2.dest_addr@,
                r.conn_info_v2.is_tls,
                r.conn_info_v2.timestamp,
            ),
        },
{
    match decode_request(&r.request_v2.header, &r.request_v2.body) {
        None => None,
        Some((hs, body)) => {
            let headers = headers_of(&hs);
            Some(
                Record {
                    request: Some(
                        Request {
                            method: r.request_v2.method.clone(),
                            path: r.request_v2.path.clone(),
                            headers,
                            trailers: Vec::new(),
                            body,
                        },
                    ),
                    response: None,
                    websocket: Vec::new(),
                    connection_info: Some(
                        ConnectionInfo {
                            source_address: r.conn_info_v2.source_addr.clone(),
                            destination_address: r.conn_info_v2.dest_addr.clone(),
                            tls: r.conn_info_v2.is_tls,
                            timestamp: r.conn_info_v2.timestamp,
                        },
                    ),
                },
            )
        },
    }
}

/// The stored flows that are kept (whose encoding is handled), in order.
pub open spec fn kept_flows(rs: Seq<RecordV2>) -> Seq<RecordV2>
    decreases rs.len(),
{
    if rs.len() == 0 {
        seq![]
    } else if decoded_request(pair_views(rs.last().request_v2.header@), rs.last().request_v2.body@) is Some {
        kept_flows(rs.drop_last()).push(rs.last())
    } else {
        kept_flows(rs.drop_last())
    }
}

/// The flow recorded for a stored flow that is kept.
pub open spec fn is_flow_of(rec: Record, r: RecordV2) -> bool {
    match decoded_request(pair_views(r.request_v2.header@), r.request_v2.body@) {
        Some((hs, b)) => record_shape(
            rec,
            r.request_v2.method@,
            r.request_v2.path@,
            hs,
            b,
            r.conn_info_v2.source_addr@,
            r.conn_info_v2.dest_addr@,
            r.conn_info_v2.is_tls,
            r.conn_info_v2.timestamp,
        ),
        None => false,
    }
}

/// The recorded flows of an app's stored flows: one for each flow that is
/// kept, in order, under the app name and time of the last flow kept (none
/// and zero where no flow is kept).
pub fn network_data_from_v2(records: &Vec<RecordV2>) -> (r: NetworkData)
    ensures
        r.records@.len() == kept_flows(records@).len(),
        forall|i: int| 0 <= i < r.records@.len() ==> #[trigger] is_flow_of(r.records@[i], kept_flows(records@)[i]),
        kept_flows(records@).len() == 0 ==> r.pkg_name@.len() == 0 && r.timestamp == 0,
        kept_flows(records@).len() > 0 ==> r.pkg_name@ == kept_flows(records@).last().app@ && r.timestamp
            == kept_flows(records@).last().time_stamp,
{
    let mut pkg_name = String::new();
    let mut data_timestamp: u64 = 0;
    let mut record_vec: Vec<Record> = Vec::new();
    let mut i: usize = 0;
    assert(records@.take(0) =~= Seq::<RecordV2>::empty());
    while i < records.len()
        invariant
            i <= records.len(),
            record_vec@.len() == kept_flows(records@.take(i as int)).len(),
            forall|k: int|
                0 <= k < record_vec@.len() ==> #[trigger] is_flow_of(record_vec@[k], kept_flows(records@.take(i as int))[k]),
            kept_flows(records@.take(i as int)).len() == 0 ==> pkg_name@.len() == 0 && data_timestamp == 0,
            kept_flows(records@.take(i as int)).len() > 0 ==> pkg_name@ == kept_flows(records@.take(i as int)).last().app@
                && data_timestamp == kept_flows(records@.take(i as int)).last().time_stamp,
        decreases records.len() - i,
    {
        let rec = &records[i];
        assert(records@.take(i + 1).drop_last() =~= records@.take(i as int));
        assert(records@.take(i + 1).last() == *rec);
        let ghost before = record_vec@;
        let ghost kb = kept_flows(records@.take(i as int));
        match record_from_v2(rec) {
            Some(r) => {
                record_vec.push(r);
                pkg_name = rec.app.clone();
                data_timestamp = rec.time_stamp;
                proof {
                    let ka = kept_flows(records@.take(i + 1));
                    assert(ka == kb.push(*rec));
                    assert forall|k: int| 0 <= k < record_vec@.len() implies #[trigger] is_flow_of(record_vec@[k], ka[k]) by {
                        if k < before.len() {
                            assert(record_vec@[k] == before[k]);
                            assert(ka[k] == kb[k]);
                        }
                    }
                }
            },
            None => {},
        }
        i = i + 1;
    }
    assert(records@.take(records.len() as int) =~= records@);
    NetworkData { pkg_name, records: record_vec, timestamp: data_timestamp }
}

/// The flow recorded for a request stored by the first layout: the request
/// as it is, with unknown (`None`) addresses.
pub fn record_from_request(req: &StoredRequest) -> (rec: Record)
    ensures
        record_shape(
            rec,
            req.method@,
            req.uri@,
            pair_views(req.header@),
            req.body@,
            "None"@,
            "None"@,
            req.tls,
            req.time,
        ),
{
    Record {
        request: Some(
            Request {
                method: req.method.clone(),
                path: req.uri.clone(),
                headers: headers_of(&req.header),
                trailers: Vec::new(),
                body: copy_bytes(req.body.as_slice()),
            },
        ),
        response: None,
        websocket: Vec::new(),
        connection_info: Some(
            ConnectionInfo {
                source_address: String::from_str("None"),
                destination_address: String::from_str("None"),
                tls: req.tls,
                timestamp: req.time,
            },
        ),
    }
}

/// Whether the body type of a stored request is found: for a gzip or
/// deflate content encoding (written exactly so) where the body decodes,
/// and for a request without content encoding; not for other encodings.
pub open spec fn body_type_known(hs: Seq<(Seq<char>, Seq<char>)>, body: Seq<u8>) -> bool {
    match header_value(hs, "content-encoding"@) {
        None => true,
        Some(e) => if e == "gzip"@ {
            gzip_decoded(body).1
        } else if e == "deflate"@ {
            deflate_decoded(body).1
        } else {
            false
        },
    }
}

/// The bytes of a stored request's body whose type is detected: the body
/// itself without content encoding, the decoded body for a gzip or deflate
/// encoding that decodes, and none otherwise (see `body_type_known`).
pub open spec fn type_source_bytes(hs: Seq<(Seq<char>, Seq<char>)>, body: Seq<u8>) -> Option<Seq<u8>> {
    match header_value(hs, "content-encoding"@) {
        None => Some(body),
        Some(e) => if e == "gzip"@ && gzip_decoded(body).1 {
            Some(gzip_decoded(body).0)
        } else if e == "deflate"@ && deflate_decoded(body).1 {
            Some(deflate_decoded(body).0)
        } else {
            None
        },
    }
}

/// The bytes whose MIME type is the body type of a stored request (see
/// `type_source_bytes`).
pub fn type_source(header: &Vec<(String, String)>, body: &Vec<u8>) -> (r: Option<Vec<u8>>)
    ensures
        r is Some <==> body_type_known(pair_views(header@), body@),
        match r {
            Some(v) => type_source_bytes(pair_views(header@), body@) == Some(v@),
            None => type_source_bytes(pair_views(header@), body@) is None,
        },
        header_value(pair_views(header@), "content-encoding"@) is None ==> (r matches Some(v) && v@ == body@),
        header_value(pair_views(header@), "content-encoding"@) == Some("gzip"@) && r is Some ==> r->0@
            == gzip_decoded(body@).0,
        header_value(pair_views(header@), "content-encoding"@) == Some("deflate"@) && r is Some ==> r->0@
            == deflate_decoded(body@).0,
{
    proof {
        reveal_strlit("gzip");
        reveal_strlit("deflate");
    }
    match find_header(header, "content-encoding") {
        None => Some(copy_bytes(body.as_slice())),
        Some(enc) => {
            if str_eq(enc.as_str(), "gzip") {
                let (text, ok) = gzip_read_all(body.as_slice());
                if ok {
                    Some(text)
                } else {
                    proof {
                        reveal_strlit("gzip");
                        reveal_strlit("deflate");
                        assert("gzip"@.len() == 4);
                        assert("deflate"@.len() == 7);
                    }
                    None
                }
            } else if str_eq(enc.as_str(), "deflate") {
                let (text, ok) = deflate_read_all(body.as_slice());
                assert(enc@ != "gzip"@);
                if ok {
                    Some(text)
                } else {
                    None
                }
            } else {
                None
            }
        },
    }
}

/// The MIME type of a stored request's body: what the machine's MIME
/// database gives the bytes of `type_source` (the body after a gzip or
/// deflate content encoding is undone), where there are such bytes. The type
/// itself is not stated.
pub fn body_type(header: &Vec<(String, String)>, body: &Vec<u8>) -> (r: Option<String>)
    ensures
        r is Some <==> body_type_known(pair_views(header@), body@),
{
    match type_source(header, body) {
        Some(bytes) => Some(mime_type_of(bytes.as_slice())),
        None => None,
    }
}

/// The plain text of a body whose type is `text/plain` and which is valid
/// UTF-8.
pub fn body_plaintext(bodytype: &Option<String>, body: Vec<u8>) -> (r: Option<String>)
    ensures
        match bodytype {
            Some(t) => if t@ == "text/plain"@ && valid_utf8(body@) {
                r matches Some(s) && s@ == decode_utf8(body@)
            } else {
                r is None
            },
            None => r is None,
        },
{
    match bodytype {
        Some(t) => {
            if str_eq(t.as_str(), "text/plain") {
                string_from_utf8(body)
            } else {
                None
            }
        },
        None => None,
    }
}

} // verus!
