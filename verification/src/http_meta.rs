//! What the proxies record of a request and how they route a connection.
use crate::external::{header_value_text, is_visible_ascii};
use vstd::prelude::*;
use vstd::string::StringExecFns;
use vstd::utf8::{decode_utf8, encode_utf8, encode_utf8_decode_utf8};

verus! {

/// The HTTP version of a request.
#[derive(Debug, Clone, Copy, PartialEq, Eq)]
pub enum HttpVersion {
    Http09,
    Http10,
    Http11,
    Http2,
    Http3,
    /// a version that none of the others names
    Other,
}

/// The name under which a version is recorded.
pub open spec fn version_text(v: HttpVersion) -> Seq<char> {
    match v {
        HttpVersion::Http09 => "HTTP/0.9"@,
        HttpVersion::Http10 => "HTTP/1.0"@,
        HttpVersion::Http11 => "HTTP/1.1"@,
        HttpVersion::Http2 => "HTTP/2"@,
        HttpVersion::Http3 => "HTTP/3"@,
        HttpVersion::Other => "Unknown HTTP Version"@,
    }
}

/// The name under which a version is recorded.
pub fn version_to_string(version: &HttpVersion) -> (r: String)
    ensures
        r@ == version_text(*version),
{
    match version {
        HttpVersion::Http09 => String::from_str("HTTP/0.9"),
        HttpVersion::Http10 => String::from_str("HTTP/1.0"),
        HttpVersion::Http11 => String::from_str("HTTP/1.1"),
        HttpVersion::Http2 => String::from_str("HTTP/2"),
        HttpVersion::Http3 => String::from_str("HTTP/3"),
        HttpVersion::Other => String::from_str("Unknown HTTP Version"),
    }
}

/// Every byte is visible ASCII or a tab.
pub open spec fn all_visible(v: Seq<u8>) -> bool {
    forall|i: int| 0 <= i < v.len() ==> is_visible_ascii(#[trigger] v[i])
}

/// The headers whose values are text, as a map: a later value of a name
/// replaces an earlier one.
pub open spec fn header_text_map(hs: Seq<(Seq<char>, Seq<u8>)>) -> Map<Seq<char>, Seq<char>>
    decreases hs.len(),
{
    if hs.len() == 0 {
        Map::empty()
    } else {
        let m = header_text_map(hs.drop_last());
        if all_visible(hs.last().1) {
            m.insert(hs.last().0, decode_utf8(hs.last().1))
        } else {
            m
        }
    }
}

pub open spec fn raw_header_views(hs: Seq<(String, Vec<u8>)>) -> Seq<(Seq<char>, Seq<u8>)> {
    hs.map_values(|h: (String, Vec<u8>)| (h.0@, h.1@))
}

/// The map of a list of distinct names and their values.
pub open spec fn pairs_map(ps: Seq<(String, String)>) -> Map<Seq<char>, Seq<char>>
    decreases ps.len(),
{
    if ps.len() == 0 {
        Map::empty()
    } else {
        pairs_map(ps.drop_last()).insert(ps.last().0@, ps.last().1@)
    }
}

/// No name occurs twice.
pub open spec fn distinct_names(ps: Seq<(String, String)>) -> bool {
    forall|i: int, j: int| 0 <= i < j < ps.len() ==> #[trigger] ps[i].0@ != #[trigger] ps[j].0@
}

proof fn lemma_pairs_map_update(ps: Seq<(String, String)>, j: int, v: String)
    requires
        distinct_names(ps),
        0 <= j < ps.len(),
    ensures
        pairs_map(ps.update(j, (ps[j].0, v))) == pairs_map(ps).insert(ps[j].0@, v@),
        distinct_names(ps.update(j, (ps[j].0, v))),
    decreases ps.len(),
{
    let q = ps.update(j, (ps[j].0, v));
    if j == ps.len() - 1 {
        assert(q.drop_last() =~= ps.drop_last());
        lemma_pairs_map_keys(ps.drop_last());
        assert(!pairs_map(ps.drop_last()).dom().contains(ps.last().0@)) by {
            if pairs_map(ps.drop_last()).dom().contains(ps.last().0@) {
                let i = choose|i: int| 0 <= i < ps.drop_last().len() && ps.drop_last()[i].0@ == ps.last().0@;
                assert(ps[i].0@ != ps[ps.len() - 1].0@);
            }
        }
        assert(pairs_map(q) =~= pairs_map(ps).insert(ps[j].0@, v@));
    } else {
        assert(q.drop_last() =~= ps.drop_last().update(j, (ps[j].0, v)));
        lemma_pairs_map_update(ps.drop_last(), j, v);
        assert(ps.last().0@ != ps[j].0@);
        assert(pairs_map(q) =~= pairs_map(ps).insert(ps[j].0@, v@));
    }
}

proof fn lemma_pairs_map_keys(ps: Seq<(String, String)>)
    ensures
        forall|k: Seq<char>|
            #[trigger] pairs_map(ps).dom().contains(k) <==> exists|i: int| 0 <= i < ps.len() && ps[i].0@ == k,
    decreases ps.len(),
{
    if ps.len() > 0 {
        lemma_pairs_map_keys(ps.drop_last());
        assert forall|k: Seq<char>| #[trigger] pairs_map(ps).dom().contains(k) implies exists|i: int| 0 <= i < ps.len() && ps[i].0@ == k by {
            if k != ps.last().0@ {
                assert(pairs_map(ps.drop_last()).dom().contains(k));
                let i = choose|i: int| 0 <= i < ps.drop_last().len() && ps.drop_last()[i].0@ == k;
                assert(ps[i].0@ == k);
            } else {
                assert(ps[ps.len() - 1].0@ == k);
            }
        }
        assert forall|k: Seq<char>| (exists|i: int| 0 <= i < ps.len() && ps[i].0@ == k) implies #[trigger] pairs_map(ps).dom().contains(k) by {
            let i = choose|i: int| 0 <= i < ps.len() && ps[i].0@ == k;
            if i < ps.len() - 1 {
                assert(ps.drop_last()[i].0@ == k);
                assert(pairs_map(ps.drop_last()).dom().contains(k));
            }
        }
    }
}

/// The headers whose values are text, each name once with its last value
/// (see `header_text_map`); names keep the order in which they first come.
pub fn headers_to_hashmap(headers: &Vec<(String, Vec<u8>)>) -> (r: Vec<(String, String)>)
    ensures
        distinct_names(r@),
        pairs_map(r@) == header_text_map(raw_header_views(headers@)),
{
    let ghost hv = raw_header_views(headers@);
    let mut map: Vec<(String, String)> = Vec::new();
    let mut i: usize = 0;
    assert(pairs_map(map@) =~= header_text_map(hv.take(0)));
    while i < headers.len()
        invariant
            i <= headers.len(),
            hv == raw_header_views(headers@),
            distinct_names(map@),
            pairs_map(map@) == header_text_map(hv.take(i as int)),
        decreases headers.len() - i,
    {
        let (key, value) = &headers[i];
        assert(hv.take(i + 1).drop_last() =~= hv.take(i as int));
        assert(hv.take(i + 1).last() == (key@, value@));
        match header_value_text(value.as_slice()) {
            Some(text) => {
                proof {
                    encode_utf8_decode_utf8(text@);
                }
                let mut j: usize = 0;
                let mut found = false;
                while j < map.len() && !found
                    invariant
                        j <= map.len(),
                        !found ==> forall|a: int| 0 <= a < j ==> map@[a].0@ != key@,
                        found ==> j < map.len() && map@[j as int].0@ == key@,
                    decreases map.len() - j + if found { 0int } else { 1int },
                {
                    if map[j].0 == *key {
                        found = true;
                    } else {
                        j = j + 1;
                    }
                }
                if found {
                    let ghost before = map@;
                    let k2 = map[j].0.clone();
                    map.set(j, (k2, text));
                    proof {
                        assert(map@ == before.update(j as int, (before[j as int].0, text)));
                        lemma_pairs_map_update(before, j as int, text);
                    }
                } else {
                    let ghost before = map@;
                    map.push((key.clone(), text));
                    proof {
                        assert(map@.drop_last() =~= before);
                        assert forall|a: int, b: int| 0 <= a < b < map@.len() implies #[trigger] map@[a].0@ != #[trigger] map@[b].0@ by {
                            if b == map@.len() - 1 {
                                assert(map@[a] == before[a]);
                            } else {
                                assert(map@[a] == before[a] && map@[b] == before[b]);
                            }
                        }
                    }
                }
                assert(pairs_map(map@) =~= header_text_map(hv.take(i + 1)));
            },
            None => {},
        }
        i = i + 1;
    }
    assert(hv.take(headers.len() as int) =~= hv);
    map
}

/// Where a request goes: the authority of its URI, else its `host` header,
/// else the whole URI.
pub open spec fn host_addr_spec(authority: Option<Seq<char>>, host_header: Option<Seq<u8>>, uri_text: Seq<char>) -> Seq<
    char,
> {
    match authority {
        Some(a) => a,
        None => match host_header {
            Some(h) => decode_utf8(h),
            None => uri_text,
        },
    }
}

/// Where a request goes (see `host_addr_spec`); the `host` header, when it
/// is used, is text.
pub fn host_addr(authority: Option<String>, host_header: Option<Vec<u8>>, uri_text: String) -> (r: Option<String>)
    requires
        authority is None && host_header is Some ==> all_visible(host_header->0@),
    ensures
        r matches Some(s) && s@ == host_addr_spec(
            match authority {
                Some(a) => Some(a@),
                None => None,
            },
            match host_header {
                Some(h) => Some(h@),
                None => None,
            },
            uri_text@,
        ),
{
    match authority {
        Some(a) => Some(a),
        None => match host_header {
            Some(h) => match header_value_text(h.as_slice()) {
                Some(t) => {
                    proof {
                        encode_utf8_decode_utf8(t@);
                    }
                    Some(t)
                },
                None => {
                    assert(false);
                    None
                },
            },
            None => Some(uri_text),
        },
    }
}

/// How a proxied TLS connection is carried on, by the protocol that ALPN
/// agreed on.
#[derive(Debug, Clone, Copy, PartialEq, Eq)]
pub enum TunnelKind {
    /// HTTP/2 (`h2`): requests are recorded and relayed
    Http2,
    /// HTTP/1.1 (`http/1.1`): requests are recorded and relayed
    Http1,
    /// any other protocol: bytes are copied both ways
    Raw,
}

pub open spec fn tunnel_kind_of(alpn: Seq<u8>) -> TunnelKind {
    if alpn == seq![104u8, 50u8] {
        TunnelKind::Http2
    } else if alpn == seq![104u8, 116u8, 116u8, 112u8, 47u8, 49u8, 46u8, 49u8] {
        TunnelKind::Http1
    } else {
        TunnelKind::Raw
    }
}

/// How a connection is carried on (see `tunnel_kind_of`).
pub fn tunnel_for_alpn(alpn: &[u8]) -> (r: TunnelKind)
    ensures
        r == tunnel_kind_of(alpn@),
{
    let h2: [u8; 2] = [104, 50];
    let h1: [u8; 8] = [104, 116, 116, 112, 47, 49, 46, 49];
    if crate::data::bytes_equal(alpn, h2.as_slice()) {
        assert(h2@ =~= seq![104u8, 50u8]);
        TunnelKind::Http2
    } else if crate::data::bytes_equal(alpn, h1.as_slice()) {
        assert(h1@ =~= seq![104u8, 116u8, 116u8, 112u8, 47u8, 49u8, 46u8, 49u8]);
        TunnelKind::Http1
    } else {
        assert(h2@ =~= seq![104u8, 50u8]);
        assert(h1@ =~= seq![104u8, 116u8, 116u8, 112u8, 47u8, 49u8, 46u8, 49u8]);
        TunnelKind::Raw
    }
}

/// The address of a server's TLS port: its name and `:443`.
pub fn server_port(server_name: &str) -> (r: String)
    ensures
        r@ == server_name@ + ":443"@,
{
    let mut r = String::from_str(server_name);
    r.append(":443");
    r
}

} // verus!
