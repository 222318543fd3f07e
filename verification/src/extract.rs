//! Searching the recorded flows of an app, and the plaintexts of the cipher
//! records that match them, for leaked items.
use crate::data::{
    record_matches, record_models, ConnectionInfo, CryptRecordModel, CryptographicRecord, Header,
    NetworkData, Record, WebSocketMessage,
};
use crate::db::{distinct_leaks, leak_set, Leak};
use crate::leak::{contains_result, copy_bytes, extend_bytes, Leaks};
use crate::text::string_views;
use std::sync::Arc;
use vstd::prelude::*;
use vstd::string::StringSliceAdditionalSpecFns;
use vstd::utf8::encode_utf8;

verus! {

/// A place of a flow where leaks are looked for: its bytes, its direction,
/// and whether the plaintexts of matching cipher records and the bytes
/// themselves are unpacked before the search.
pub struct FlowSite {
    pub data: Seq<u8>,
    pub is_send: bool,
    pub crypto_unarchive: bool,
    pub direct_unarchive: bool,
}

/// A chunk of bytes that is searched, and how the leaks found in it are
/// recorded.
pub struct Probe {
    pub data: Seq<u8>,
    pub unarchive: bool,
    pub is_send: bool,
    pub is_encrypted: bool,
}

/// The bytes of a header as `key: value`.
pub open spec fn header_bytes(h: Header) -> Seq<u8> {
    encode_utf8(h.key@) + seq![58u8, 32u8] + encode_utf8(h.value@)
}

pub open spec fn header_sites(hs: Seq<Header>, is_send: bool, crypto_unarchive: bool) -> Seq<FlowSite> {
    hs.map_values(
        |h: Header|
            FlowSite { data: header_bytes(h), is_send, crypto_unarchive, direct_unarchive: true },
    )
}

pub open spec fn message_sites(ws: Seq<WebSocketMessage>) -> Seq<FlowSite> {
    ws.map_values(
        |m: WebSocketMessage|
            FlowSite {
                data: m.content@,
                is_send: m.from_client,
                crypto_unarchive: true,
                direct_unarchive: true,
            },
    )
}

/// The places of a flow that are searched, in order: the websocket
/// messages; the request's headers and body; the response's headers and
/// body. Plaintexts of records matching a response header, and the response
/// body itself, are searched without unpacking.
pub open spec fn record_sites(r: Record) -> Seq<FlowSite> {
    message_sites(r.websocket@) + match r.request {
        Some(q) => header_sites(q.headers@, true, true) + seq![
            FlowSite { data: q.body@, is_send: true, crypto_unarchive: true, direct_unarchive: true },
        ],
        None => seq![],
    } + match r.response {
        Some(p) => header_sites(p.headers@, false, false) + seq![
            FlowSite {
                data: p.body@,
                is_send: false,
                crypto_unarchive: true,
                direct_unarchive: false,
            },
        ],
        None => seq![],
    }
}

/// The plaintexts of the records that match the site's bytes and run in the
/// site's direction (encryption for data sent, decryption for data
/// received), in the order of the records.
pub open spec fn crypto_probes(cryptos: Seq<CryptRecordModel>, s: FlowSite) -> Seq<Probe>
    decreases cryptos.len(),
{
    if cryptos.len() == 0 {
        seq![]
    } else {
        let rest = crypto_probes(cryptos.drop_last(), s);
        let c = cryptos.last();
        if record_matches(c, s.data) && c.is_encryption == s.is_send {
            rest.push(
                Probe {
                    data: c.plaintext,
                    unarchive: s.crypto_unarchive,
                    is_send: s.is_send,
                    is_encrypted: true,
                },
            )
        } else {
            rest
        }
    }
}

/// The matching plaintexts of a site, then the site's own bytes.
pub open spec fn site_probes(cryptos: Seq<CryptRecordModel>, s: FlowSite) -> Seq<Probe> {
    crypto_probes(cryptos, s).push(
        Probe { data: s.data, unarchive: s.direct_unarchive, is_send: s.is_send, is_encrypted: false },
    )
}

pub open spec fn sites_probes(cryptos: Seq<CryptRecordModel>, sites: Seq<FlowSite>) -> Seq<Probe>
    decreases sites.len(),
{
    if sites.len() == 0 {
        seq![]
    } else {
        sites_probes(cryptos, sites.drop_last()) + site_probes(cryptos, sites.last())
    }
}

/// Every chunk that is searched for a flow.
pub open spec fn record_probes(cryptos: Seq<CryptRecordModel>, r: Record) -> Seq<Probe> {
    sites_probes(cryptos, record_sites(r))
}

/// The leaks recorded for the names found in one chunk.
pub open spec fn keys_leaks(keys: Seq<Seq<char>>, is_send: bool, is_encrypted: bool) -> Set<
    (Seq<char>, bool, bool, i32),
> {
    keys.map_values(|k: Seq<char>| (k, is_send, is_encrypted, i32::MAX)).to_set()
}

/// The leaks found in the chunks, where the `i`-th chunk is unpacked by the
/// MIME type `mimes[i]`.
pub open spec fn probes_leak_set(
    entries: Seq<(Seq<char>, Seq<Seq<u8>>)>,
    probes: Seq<Probe>,
    mimes: Seq<Seq<char>>,
) -> Set<(Seq<char>, bool, bool, i32)>
    decreases probes.len(),
{
    if probes.len() == 0 {
        Set::empty()
    } else {
        let p = probes.last();
        probes_leak_set(entries, probes.drop_last(), mimes.drop_last()) + keys_leaks(
            contains_result(entries, p.data, p.unarchive, mimes.last()),
            p.is_send,
            p.is_encrypted,
        )
    }
}

/// The leaks of a flow: no leak twice, and exactly those found in its
/// chunks for some outcome of the MIME detection of each chunk.
pub open spec fn flow_leaks(
    entries: Seq<(Seq<char>, Seq<Seq<u8>>)>,
    cryptos: Seq<CryptRecordModel>,
    r: Record,
    leaks: Seq<Leak>,
) -> bool {
    &&& distinct_leaks(leaks)
    &&& exists|mimes: Seq<Seq<char>>|
        mimes.len() == record_probes(cryptos, r).len() && leak_set(leaks) == #[trigger] probes_leak_set(
            entries,
            record_probes(cryptos, r),
            mimes,
        )
}

struct SiteBytes {
    data: Vec<u8>,
    is_send: bool,
    crypto_unarchive: bool,
    direct_unarchive: bool,
}

spec fn site_view(s: SiteBytes) -> FlowSite {
    FlowSite {
        data: s.data@,
        is_send: s.is_send,
        crypto_unarchive: s.crypto_unarchive,
        direct_unarchive: s.direct_unarchive,
    }
}

spec fn site_views(v: Seq<SiteBytes>) -> Seq<FlowSite> {
    v.map_values(|s: SiteBytes| site_view(s))
}

/// The bytes of a header as `key: value`.
fn header_bytes_of(h: &Header) -> (r: Vec<u8>)
    ensures
        r@ == header_bytes(*h),
{
    let mut r = copy_bytes(h.key.as_str().as_bytes());
    r.push(58);
    r.push(32);
    extend_bytes(&mut r, h.value.as_str().as_bytes());
    assert(r@ =~= header_bytes(*h));
    r
}

fn push_site(sites: &mut Vec<SiteBytes>, s: SiteBytes)
    ensures
        site_views(final(sites)@) == site_views(old(sites)@).push(site_view(s)),
{
    let ghost before = sites@;
    sites.push(s);
    assert(site_views(sites@) =~= site_views(before).push(site_view(s)));
}

fn push_header_sites(sites: &mut Vec<SiteBytes>, hs: &Vec<Header>, is_send: bool, crypto_unarchive: bool)
    ensures
        site_views(final(sites)@) == site_views(old(sites)@) + header_sites(hs@, is_send, crypto_unarchive),
{
    let ghost target = header_sites(hs@, is_send, crypto_unarchive);
    let mut i: usize = 0;
    while i < hs.len()
        invariant
            i <= hs.len(),
            target == header_sites(hs@, is_send, crypto_unarchive),
            site_views(sites@) == site_views(old(sites)@) + target.take(i as int),
        decreases hs.len() - i,
    {
        let data = header_bytes_of(&hs[i]);
        push_site(sites, SiteBytes { data, is_send, crypto_unarchive, direct_unarchive: true });
        assert(target.take(i + 1) =~= target.take(i as int).push(target[i as int]));
        i = i + 1;
    }
    assert(target.take(hs.len() as int) =~= target);
}

/// The places of a flow that are searched (see `record_sites`).
fn sites_of(record: &Record) -> (r: Vec<SiteBytes>)
    ensures
        site_views(r@) == record_sites(*record),
{
    let mut sites: Vec<SiteBytes> = Vec::new();
    let ghost ms = message_sites(record.websocket@);
    let mut i: usize = 0;
    while i < record.websocket.len()
        invariant
            i <= record.websocket.len(),
            ms == message_sites(record.websocket@),
            site_views(sites@) == ms.take(i as int),
        decreases record.websocket.len() - i,
    {
        let m = &record.websocket[i];
        push_site(
            &mut sites,
            SiteBytes {
                data: copy_bytes(m.content.as_slice()),
                is_send: m.from_client,
                crypto_unarchive: true,
                direct_unarchive: true,
            },
        );
        assert(ms.take(i + 1) =~= ms.take(i as int).push(ms[i as int]));
        i = i + 1;
    }
    assert(ms.take(record.websocket.len() as int) =~= ms);
    let ghost after_ws = site_views(sites@);
    match &record.request {
        Some(q) => {
            push_header_sites(&mut sites, &q.headers, true, true);
            push_site(
                &mut sites,
                SiteBytes {
                    data: copy_bytes(q.body.as_slice()),
                    is_send: true,
                    crypto_unarchive: true,
                    direct_unarchive: true,
                },
            );
        },
        None => {},
    }
    let ghost after_req = site_views(sites@);
    match &record.response {
        Some(p) => {
            push_header_sites(&mut sites, &p.headers, false, false);
            push_site(
                &mut sites,
                SiteBytes {
                    data: copy_bytes(p.body.as_slice()),
                    is_send: false,
                    crypto_unarchive: true,
                    direct_unarchive: false,
                },
            );
        },
        None => {},
    }
    assert(site_views(sites@) =~= record_sites(*record));
    sites
}

/// Adds a leak unless it is there already.
pub(crate) fn add_leak(leaks: &mut Vec<Leak>, l: Leak)
    requires
        distinct_leaks(old(leaks)@),
    ensures
        distinct_leaks(final(leaks)@),
        leak_set(final(leaks)@) == leak_set(old(leaks)@).insert(l@),
{
    let ghost views = leaks@.map_values(|x: Leak| x@);
    let mut i: usize = 0;
    while i < leaks.len()
        invariant
            i <= leaks.len(),
            views == leaks@.map_values(|x: Leak| x@),
            leaks@ == old(leaks)@,
            distinct_leaks(leaks@),
            forall|k: int| 0 <= k < i ==> views[k] != l@,
        decreases leaks.len() - i,
    {
        let x = &leaks[i];
        if x.leak == l.leak && x.is_send == l.is_send && x.is_encrypted == l.is_encrypted
            && x.connection_id == l.connection_id {
            assert(views[i as int] == l@);
            assert(views.to_set().insert(l@) =~= views.to_set());
            return;
        }
        i = i + 1;
    }
    let ghost before = leaks@;
    leaks.push(l);
    proof {
        assert(leaks@.map_values(|x: Leak| x@) =~= views.push(l@));
        views.lemma_push_to_set_commute(l@);
    }
}

/// Adds a leak for each name found in a chunk.
fn add_keys(leaks: &mut Vec<Leak>, keys: &Vec<String>, is_send: bool, is_encrypted: bool)
    requires
        distinct_leaks(old(leaks)@),
    ensures
        distinct_leaks(final(leaks)@),
        leak_set(final(leaks)@) == leak_set(old(leaks)@) + keys_leaks(string_views(keys@), is_send, is_encrypted),
{
    let ghost ks = string_views(keys@);
    let mut i: usize = 0;
    assert(keys_leaks(ks.take(0), is_send, is_encrypted) =~= Set::empty());
    while i < keys.len()
        invariant
            i <= keys.len(),
            ks == string_views(keys@),
            distinct_leaks(leaks@),
            leak_set(leaks@) == leak_set(old(leaks)@) + keys_leaks(ks.take(i as int), is_send, is_encrypted),
        decreases keys.len() - i,
    {
        let l = Leak { leak: keys[i].clone(), is_send, is_encrypted, connection_id: i32::MAX };
        add_leak(leaks, l);
        proof {
            let f = |k: Seq<char>| (k, is_send, is_encrypted, i32::MAX);
            assert(ks.take(i + 1) =~= ks.take(i as int).push(ks[i as int]));
            assert(ks.take(i + 1).map_values(f) =~= ks.take(i as int).map_values(f).push(f(ks[i as int])));
            ks.take(i as int).map_values(f).lemma_push_to_set_commute(f(ks[i as int]));
            assert(leak_set(leaks@) =~= leak_set(old(leaks)@) + keys_leaks(ks.take(i + 1), is_send, is_encrypted));
        }
        i = i + 1;
    }
    assert(ks.take(keys.len() as int) =~= ks);
}

impl Leaks {
    /// Searches one chunk and records what is found.
    fn search_chunk(
        &self,
        leaks: &mut Vec<Leak>,
        chunk: &[u8],
        unarchive: bool,
        is_send: bool,
        is_encrypted: bool,
        Ghost(probes): Ghost<Seq<Probe>>,
        Ghost(mimes): Ghost<Seq<Seq<char>>>,
    ) -> (new_mimes: Ghost<Seq<Seq<char>>>)
        requires
            distinct_leaks(old(leaks)@),
            mimes.len() == probes.len(),
            leak_set(old(leaks)@) == probes_leak_set(self@, probes, mimes),
        ensures
            distinct_leaks(final(leaks)@),
            new_mimes@.len() == probes.len() + 1,
            leak_set(final(leaks)@) == probes_leak_set(
                self@,
                probes.push(Probe { data: chunk@, unarchive, is_send, is_encrypted }),
                new_mimes@,
            ),
    {
        let found = self.contains(chunk, unarchive);
        let ghost m = choose|m: Seq<char>| string_views(found@) == #[trigger] contains_result(self@, chunk@, unarchive, m);
        add_keys(leaks, &found, is_send, is_encrypted);
        let ghost p = Probe { data: chunk@, unarchive, is_send, is_encrypted };
        proof {
            assert(probes.push(p).drop_last() =~= probes);
            assert(mimes.push(m).drop_last() =~= mimes);
        }
        Ghost(mimes.push(m))
    }

    /// The leaks of one flow (see `flow_leaks`).
    fn flow_leaks_of(&self, record: &Record, cryptos: &Vec<CryptographicRecord>) -> (r: Vec<Leak>)
        ensures
            flow_leaks(self@, record_models(cryptos@), *record, r@),
    {
        let ghost cms = record_models(cryptos@);
        let sites = sites_of(record);
        let ghost sv = site_views(sites@);
        let mut leaks: Vec<Leak> = Vec::new();
        let ghost mut probes: Seq<Probe> = seq![];
        let ghost mut mimes: Seq<Seq<char>> = seq![];
        assert(leak_set(leaks@) =~= Set::empty());
        assert(sv.take(0) =~= Seq::<FlowSite>::empty());
        let mut si: usize = 0;
        while si < sites.len()
            invariant
                si <= sites.len(),
                sv == site_views(sites@),
                cms == record_models(cryptos@),
                distinct_leaks(leaks@),
                mimes.len() == probes.len(),
                probes == sites_probes(cms, sv.take(si as int)),
                leak_set(leaks@) == probes_leak_set(self@, probes, mimes),
            decreases sites.len() - si,
        {
            let site = &sites[si];
            let ghost s = sv[si as int];
            assert(s == site_view(*site));
            let ghost base = probes;
            let mut ci: usize = 0;
            assert(cms.take(0) =~= Seq::<CryptRecordModel>::empty());
            while ci < cryptos.len()
                invariant
                    ci <= cryptos.len(),
                    cms == record_models(cryptos@),
                    s == site_view(*site),
                    distinct_leaks(leaks@),
                    mimes.len() == probes.len(),
                    probes == base + crypto_probes(cms.take(ci as int), s),
                    leak_set(leaks@) == probes_leak_set(self@, probes, mimes),
                decreases cryptos.len() - ci,
            {
                let c = &cryptos[ci];
                assert(cms[ci as int] == c@);
                assert(cms.take(ci + 1).drop_last() =~= cms.take(ci as int));
                if c.is_encryption == site.is_send && c.contains(site.data.as_slice()) {
                    let Ghost(nm) = self.search_chunk(
                        &mut leaks,
                        c.plaintext.as_slice(),
                        site.crypto_unarchive,
                        site.is_send,
                        true,
                        Ghost(probes),
                        Ghost(mimes),
                    );
                    proof {
                        let p = Probe {
                            data: c.plaintext@,
                            unarchive: s.crypto_unarchive,
                            is_send: s.is_send,
                            is_encrypted: true,
                        };
                        assert(base + crypto_probes(cms.take(ci + 1), s) =~= probes.push(p));
                        probes = probes.push(p);
                        mimes = nm;
                    }
                } else {
                    assert(crypto_probes(cms.take(ci + 1), s) == crypto_probes(cms.take(ci as int), s));
                }
                ci = ci + 1;
            }
            assert(cms.take(cryptos.len() as int) =~= cms);
            let Ghost(nm) = self.search_chunk(
                &mut leaks,
                site.data.as_slice(),
                site.direct_unarchive,
                site.is_send,
                false,
                Ghost(probes),
                Ghost(mimes),
            );
            proof {
                let p = Probe {
                    data: s.data,
                    unarchive: s.direct_unarchive,
                    is_send: s.is_send,
                    is_encrypted: false,
                };
                assert(sv.take(si + 1).drop_last() =~= sv.take(si as int));
                assert(sv.take(si + 1).last() == s);
                assert(sites_probes(cms, sv.take(si + 1)) =~= probes.push(p));
                probes = probes.push(p);
                mimes = nm;
            }
            si = si + 1;
        }
        assert(sv.take(sites.len() as int) =~= sv);
        assert(probes == record_probes(cms, *record));
        assert(mimes.len() == record_probes(cms, *record).len() && leak_set(leaks@) == probes_leak_set(
            self@,
            record_probes(cms, *record),
            mimes,
        ));
        leaks
    }
}

/// A copy of connection information.
fn copy_connection_info(c: &ConnectionInfo) -> (r: ConnectionInfo)
    ensures
        r == *c,
{
    ConnectionInfo {
        source_address: c.source_address.clone(),
        destination_address: c.destination_address.clone(),
        tls: c.tls,
        timestamp: c.timestamp,
    }
}

impl Leaks {
    /// The leaks of each recorded flow, with the flow's connection
    /// information. A flow without connection information gets no leaks and
    /// default information; the leaks of the others are those that
    /// `flow_leaks` describes, each with connection id `i32::MAX`.
    pub fn extract_leaks(&self, network_data: &NetworkData, cryptos: Arc<Vec<CryptographicRecord>>) -> (r: Vec<
        (Vec<Leak>, ConnectionInfo),
    >)
        ensures
            r@.len() == network_data.records@.len(),
            forall|i: int|
                0 <= i < r@.len() ==> match #[trigger] network_data.records@[i].connection_info {
                    None => {
                        &&& r@[i].0@.len() == 0
                        &&& r@[i].1.source_address@.len() == 0
                        &&& r@[i].1.destination_address@.len() == 0
                        &&& !r@[i].1.tls
                        &&& r@[i].1.timestamp == 0
                    },
                    Some(ci) => {
                        &&& r@[i].1 == ci
                        &&& flow_leaks(self@, record_models(cryptos@), network_data.records@[i], r@[i].0@)
                    },
                },
    {
        let cs: &Vec<CryptographicRecord> = &*cryptos;
        let records = &network_data.records;
        let mut out: Vec<(Vec<Leak>, ConnectionInfo)> = Vec::new();
        let mut i: usize = 0;
        while i < records.len()
            invariant
                i <= records.len(),
                *cs == *cryptos,
                records == &network_data.records,
                out@.len() == i,
                forall|k: int|
                    0 <= k < i ==> match #[trigger] records@[k].connection_info {
                        None => {
                            &&& out@[k].0@.len() == 0
                            &&& out@[k].1.source_address@.len() == 0
                            &&& out@[k].1.destination_address@.len() == 0
                            &&& !out@[k].1.tls
                            &&& out@[k].1.timestamp == 0
                        },
                        Some(ci) => {
                            &&& out@[k].1 == ci
                            &&& flow_leaks(self@, record_models(cryptos@), records@[k], out@[k].0@)
                        },
                    },
            decreases records.len() - i,
        {
            let record = &records[i];
            match &record.connection_info {
                None => {
                    out.push((Vec::new(), ConnectionInfo::default()));
                },
                Some(ci) => {
                    let info = copy_connection_info(ci);
                    let leaks = self.flow_leaks_of(record, cs);
                    out.push((leaks, info));
                },
            }
            i = i + 1;
        }
        out
    }
}

} // verus!
