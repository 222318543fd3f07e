//! Tying the leaks found in the flows of a run to the recorded connections
//! of that run and to the HTTP versions of their requests.
use crate::data::{is_first_latest, ConnectionInfo, CryptographicRecord, NetworkData};
use std::sync::Arc;
use crate::db::{distinct_leaks, leak_set, Leak, NetworkConnection};
use crate::extract::add_leak;
use crate::results::{conn_models, copy_leaks, copy_versioned, opt_view, ConnModel, VersionedNetworkConnection};
use vstd::prelude::*;

verus! {

/// The flows of a run and the cipher records recovered for it.
pub struct SimplifiedAppData {
    pub data: NetworkData,
    pub cryptographic: Arc<Vec<CryptographicRecord>>,
}

/// A connection for each flow, from its connection information and leaks
/// (no destination, importance, thread, process or target yet).
pub fn fake_get_network_connections(network_leaks: &Vec<(Vec<Leak>, ConnectionInfo)>) -> (r: Vec<
    NetworkConnection,
>)
    ensures
        r@.len() == network_leaks@.len(),
        forall|i: int|
            0 <= i < r@.len() ==> {
                let c = #[trigger] r@[i];
                let (leaks, info) = network_leaks@[i];
                &&& c.src_addr@ == info.source_address@
                &&& c.destination_addr is None
                &&& c.importance == 0
                &&& c.tid == 0
                &&& c.pid == 0
                &&& c.target is None
                &&& c.ts == info.timestamp as u128
                &&& c.leaks@ == leaks@
            },
        (forall|i: int| 0 <= i < network_leaks@.len() ==> distinct_leaks(#[trigger] network_leaks@[i].0@))
            ==> forall|i: int| 0 <= i < r@.len() ==> distinct_leaks(#[trigger] r@[i].leaks@),
{
    let mut network_connections: Vec<NetworkConnection> = Vec::new();
    let mut i: usize = 0;
    while i < network_leaks.len()
        invariant
            i <= network_leaks.len(),
            network_connections@.len() == i,
            forall|k: int|
                0 <= k < i ==> {
                    let c = #[trigger] network_connections@[k];
                    let (leaks, info) = network_leaks@[k];
                    &&& c.src_addr@ == info.source_address@
                    &&& c.destination_addr is None
                    &&& c.importance == 0
                    &&& c.tid == 0
                    &&& c.pid == 0
                    &&& c.target is None
                    &&& c.ts == info.timestamp as u128
                    &&& c.leaks@ == leaks@
                },
        decreases network_leaks.len() - i,
    {
        let (leaks, connection_info) = &network_leaks[i];
        network_connections.push(
            NetworkConnection {
                src_addr: connection_info.source_address.clone(),
                destination_addr: None,
                importance: 0,
                tid: 0,
                pid: 0,
                target: None,
                ts: connection_info.timestamp as u128,
                leaks: copy_leaks(leaks),
            },
        );
        i = i + 1;
    }
    network_connections
}

pub open spec fn model_timestamps(s: Seq<ConnModel>) -> Seq<u128> {
    s.map_values(|c: ConnModel| c.ts)
}

/// The connection opened last at or before `ts` (the first such one when
/// several share that time); a single candidate is taken whatever its time.
pub fn find_closest_network_connection_v(
    ts: u128,
    network_connection: Vec<VersionedNetworkConnection>,
) -> (r: Option<VersionedNetworkConnection>)
    ensures
        network_connection@.len() == 0 ==> r is None,
        network_connection@.len() == 1 ==> (r matches Some(c) && c@ == network_connection@[0]@),
        network_connection@.len() > 1 ==> match r {
            None => forall|j: int|
                0 <= j < network_connection@.len() ==> network_connection@[j].ts > ts,
            Some(c) => exists|i: int|
                is_first_latest(model_timestamps(conn_models(network_connection@)), ts, i) && c@
                    == network_connection@[i]@,
        },
{
    if network_connection.len() == 0 {
        return None;
    }
    if network_connection.len() == 1 {
        return Some(copy_versioned(&network_connection[0]));
    }
    let ghost tss = model_timestamps(conn_models(network_connection@));
    let mut smallest_diff: Option<u128> = None;
    let mut best: usize = 0;
    let mut i: usize = 0;
    while i < network_connection.len()
        invariant
            tss == model_timestamps(conn_models(network_connection@)),
            i <= network_connection.len(),
            match smallest_diff {
                None => forall|j: int| 0 <= j < i ==> tss[j] > ts,
                Some(d) => {
                    &&& best < i
                    &&& d == ts - tss[best as int]
                    &&& is_first_latest(tss.take(i as int), ts, best as int)
                },
            },
        decreases network_connection.len() - i,
    {
        let c_ts = network_connection[i].ts;
        assert(tss[i as int] == c_ts);
        if c_ts <= ts {
            let diff = ts - c_ts;
            let better = match smallest_diff {
                None => true,
                Some(s) => diff < s,
            };
            if better {
                smallest_diff = Some(diff);
                best = i;
            }
        }
        assert(tss.take(i + 1).take(i as int) =~= tss.take(i as int));
        i = i + 1;
    }
    assert(tss.take(network_connection.len() as int) =~= tss);
    match smallest_diff {
        None => {
            assert forall|j: int| 0 <= j < network_connection@.len() implies network_connection@[j].ts > ts by {
                assert(tss[j] == network_connection@[j].ts);
            }
            None
        },
        Some(_) => Some(copy_versioned(&network_connection[best])),
    }
}

/// The position of the first connection opened at `ts`, if any.
pub open spec fn first_with_ts(ncs: Seq<NetworkConnection>, ts: u128) -> Option<int>
    decreases ncs.len(),
{
    if ncs.len() == 0 {
        None
    } else {
        match first_with_ts(ncs.drop_last(), ts) {
            Some(j) => Some(j),
            None => if ncs.last().ts == ts {
                Some(ncs.len() - 1)
            } else {
                None
            },
        }
    }
}

/// A connection with the version of a request recorded at its opening time.
pub open spec fn versioned_model(nc: NetworkConnection, version: Seq<char>) -> ConnModel {
    ConnModel {
        version,
        src_addr: nc.src_addr@,
        destination_addr: opt_view(nc.destination_addr),
        importance: nc.importance,
        tid: nc.tid,
        pid: nc.pid,
        target: opt_view(nc.target),
        ts: nc.ts,
        leaks: nc.leaks@,
    }
}

/// For each recorded request (the opening time of its connection and its
/// HTTP version) that matches a connection by time, the first such
/// connection with that version.
pub open spec fn versioned_connections(ncs: Seq<NetworkConnection>, records: Seq<(u64, String)>) -> Seq<
    ConnModel,
>
    decreases records.len(),
{
    if records.len() == 0 {
        seq![]
    } else {
        let rest = versioned_connections(ncs, records.drop_last());
        let (t, v) = records.last();
        match first_with_ts(ncs, t as u128) {
            Some(j) => rest.push(versioned_model(ncs[j], v@)),
            None => rest,
        }
    }
}

fn copy_opt_string(o: &Option<String>) -> (r: Option<String>)
    ensures
        r == *o,
{
    match o {
        Some(s) => Some(s.clone()),
        None => None,
    }
}

/// The connection that `first_with_ts` names is one of the connections.
proof fn lemma_first_with_ts_in_range(ncs: Seq<NetworkConnection>, ts: u128)
    ensures
        first_with_ts(ncs, ts) matches Some(j) ==> 0 <= j < ncs.len(),
    decreases ncs.len(),
{
    if ncs.len() > 0 {
        lemma_first_with_ts_in_range(ncs.drop_last(), ts);
    }
}

/// Versioned connections list no leak twice when the connections do not.
proof fn lemma_versioned_distinct(ncs: Seq<NetworkConnection>, records: Seq<(u64, String)>)
    requires
        forall|k: int| 0 <= k < ncs.len() ==> distinct_leaks(#[trigger] ncs[k].leaks@),
    ensures
        forall|i: int|
            0 <= i < versioned_connections(ncs, records).len() ==> distinct_leaks(
                #[trigger] versioned_connections(ncs, records)[i].leaks,
            ),
    decreases records.len(),
{
    if records.len() > 0 {
        lemma_versioned_distinct(ncs, records.drop_last());
        lemma_first_with_ts_in_range(ncs, records.last().0 as u128);
    }
}

/// Gives each recorded request the first connection opened at the same time,
/// with the request's HTTP version (see `versioned_connections`).
pub fn version_connections(network_connections: &Vec<NetworkConnection>, records: &Vec<(u64, String)>) -> (r: Vec<
    VersionedNetworkConnection,
>)
    ensures
        conn_models(r@) == versioned_connections(network_connections@, records@),
        (forall|k: int| 0 <= k < network_connections@.len() ==> distinct_leaks(#[trigger] network_connections@[k].leaks@))
            ==> forall|i: int| 0 <= i < r@.len() ==> distinct_leaks(#[trigger] r@[i].leaks@),
{
    let mut out: Vec<VersionedNetworkConnection> = Vec::new();
    let mut i: usize = 0;
    assert(conn_models(out@) =~= versioned_connections(network_connections@, records@.take(0)));
    while i < records.len()
        invariant
            i <= records.len(),
            conn_models(out@) == versioned_connections(network_connections@, records@.take(i as int)),
        decreases records.len() - i,
    {
        let (t, version) = &records[i];
        let ts = *t as u128;
        let mut found: Option<usize> = None;
        let mut j: usize = 0;
        assert(network_connections@.take(0) =~= Seq::<NetworkConnection>::empty());
        while j < network_connections.len()
            invariant
                j <= network_connections.len(),
                match found {
                    Some(x) => first_with_ts(network_connections@.take(j as int), ts) == Some(x as int) && x < j,
                    None => first_with_ts(network_connections@.take(j as int), ts) is None,
                },
            decreases network_connections.len() - j,
        {
            assert(network_connections@.take(j + 1).drop_last() =~= network_connections@.take(j as int));
            if found.is_none() && network_connections[j].ts == ts {
                found = Some(j);
            }
            j = j + 1;
        }
        assert(network_connections@.take(network_connections.len() as int) =~= network_connections@);
        assert(records@.take(i + 1).drop_last() =~= records@.take(i as int));
        assert(records@.take(i + 1).last() == records@[i as int]);
        let ghost before = out@;
        match found {
            Some(k) => {
                let nc = &network_connections[k];
                out.push(
                    VersionedNetworkConnection {
                        version: version.clone(),
                        src_addr: nc.src_addr.clone(),
                        destination_addr: copy_opt_string(&nc.destination_addr),
                        importance: nc.importance,
                        tid: nc.tid,
                        pid: nc.pid,
                        target: copy_opt_string(&nc.target),
                        ts: nc.ts,
                        leaks: copy_leaks(&nc.leaks),
                    },
                );
                assert(conn_models(out@) =~= conn_models(before).push(versioned_model(*nc, version@)));
            },
            None => {},
        }
        assert(conn_models(out@) == versioned_connections(network_connections@, records@.take(i + 1)));
        i = i + 1;
    }
    assert(records@.take(records.len() as int) =~= records@);
    proof {
        if forall|k: int| 0 <= k < network_connections@.len() ==> distinct_leaks(#[trigger] network_connections@[k].leaks@) {
            lemma_versioned_distinct(network_connections@, records@);
            assert forall|i: int| 0 <= i < out@.len() implies distinct_leaks(#[trigger] out@[i].leaks@) by {
                assert(conn_models(out@).len() == out@.len());
                assert(conn_models(out@)[i] == out@[i]@);
                assert(versioned_connections(network_connections@, records@)[i].leaks == out@[i].leaks@);
            }
        }
    }
    out
}

/// The source address and opening time of each connection.
pub open spec fn conn_keys(vs: Seq<ConnModel>) -> Seq<(Seq<char>, u128)> {
    vs.map_values(|c: ConnModel| (c.src_addr, c.ts))
}

/// Connection `k`, among the first `n`, is from the address `src`.
pub open spec fn is_candidate(keys: Seq<(Seq<char>, u128)>, src: Seq<char>, n: int, k: int) -> bool {
    0 <= k < n && k < keys.len() && keys[k].0 == src
}

/// Connection `k` is the only one from `src` among the first `n`.
pub open spec fn single_candidate(keys: Seq<(Seq<char>, u128)>, src: Seq<char>, n: int, k: int) -> bool {
    is_candidate(keys, src, n, k) && forall|j: int| #[trigger] is_candidate(keys, src, n, j) ==> j == k
}

/// Connection `k` is, among the first `n` from `src`, the first of those
/// opened last at or before `ts`.
pub open spec fn closest_candidate(keys: Seq<(Seq<char>, u128)>, src: Seq<char>, ts: u128, n: int, k: int) -> bool {
    &&& is_candidate(keys, src, n, k)
    &&& keys[k].1 <= ts
    &&& forall|j: int| #[trigger] is_candidate(keys, src, n, j) && keys[j].1 <= ts ==> keys[j].1 <= keys[k].1
    &&& forall|j: int| #[trigger] is_candidate(keys, src, n, j) && j < k && keys[j].1 <= ts ==> keys[j].1 < keys[k].1
}

/// The connection that a flow from `src` opened at `ts` is given to: the
/// only connection from `src`, or else the one of them opened last at or
/// before `ts` (the first such one).
pub open spec fn chosen_for(keys: Seq<(Seq<char>, u128)>, src: Seq<char>, ts: u128, k: int) -> bool {
    ||| single_candidate(keys, src, keys.len() as int, k)
    ||| (!(exists|j: int| #[trigger] single_candidate(keys, src, keys.len() as int, j)) && closest_candidate(
        keys,
        src,
        ts,
        keys.len() as int,
        k,
    ))
}

/// A flow is given to one connection at most.
pub proof fn lemma_chosen_unique(keys: Seq<(Seq<char>, u128)>, src: Seq<char>, ts: u128, a: int, b: int)
    requires
        chosen_for(keys, src, ts, a),
        chosen_for(keys, src, ts, b),
    ensures
        a == b,
{
    let n = keys.len() as int;
    if single_candidate(keys, src, n, a) {
        if single_candidate(keys, src, n, b) {
        } else {
            assert(is_candidate(keys, src, n, b));
        }
    } else if single_candidate(keys, src, n, b) {
        assert(is_candidate(keys, src, n, a));
    } else {
        assert(is_candidate(keys, src, n, a) && is_candidate(keys, src, n, b));
        if a < b {
            assert(keys[a].1 < keys[b].1);
        } else if b < a {
            assert(keys[b].1 < keys[a].1);
        }
    }
}

/// The flow is given to connection `k`.
pub open spec fn flow_chosen(keys: Seq<(Seq<char>, u128)>, item: (Vec<Leak>, ConnectionInfo), k: int) -> bool {
    chosen_for(keys, item.1.source_address@, item.1.timestamp as u128, k)
}

/// The leaks of the flows given to connection `k`.
pub open spec fn leaks_given(
    keys: Seq<(Seq<char>, u128)>,
    items: Seq<(Vec<Leak>, ConnectionInfo)>,
    k: int,
) -> Set<(Seq<char>, bool, bool, i32)> {
    Set::new(
        |x: (Seq<char>, bool, bool, i32)|
            exists|a: int|
                0 <= a < items.len() && #[trigger] flow_chosen(keys, items[a], k) && leak_set(items[a].0@).contains(x),
    )
}

/// The destination of connection `k` after the flows: that of the last flow
/// given to it, or `d0` where none is.
pub open spec fn destination_after(
    keys: Seq<(Seq<char>, u128)>,
    items: Seq<(Vec<Leak>, ConnectionInfo)>,
    k: int,
    d0: Option<Seq<char>>,
) -> Option<Seq<char>>
    decreases items.len(),
{
    if items.len() == 0 {
        d0
    } else if flow_chosen(keys, items.last(), k) {
        Some(items.last().1.destination_address@)
    } else {
        destination_after(keys, items.drop_last(), k, d0)
    }
}

/// Adds the leaks of `src` that are not there already.
fn add_leaks(dst: &mut Vec<Leak>, src: &Vec<Leak>)
    requires
        distinct_leaks(old(dst)@),
    ensures
        distinct_leaks(final(dst)@),
        leak_set(final(dst)@) == leak_set(old(dst)@) + leak_set(src@),
{
    let mut i: usize = 0;
    assert(leak_set(src@.take(0)) =~= Set::empty());
    while i < src.len()
        invariant
            i <= src.len(),
            distinct_leaks(dst@),
            leak_set(dst@) == leak_set(old(dst)@) + leak_set(src@.take(i as int)),
        decreases src.len() - i,
    {
        let l = &src[i];
        add_leak(dst, Leak { leak: l.leak.clone(), is_send: l.is_send, is_encrypted: l.is_encrypted, connection_id: l.connection_id });
        proof {
            let f = |x: Leak| x@;
            assert(src@.take(i + 1) =~= src@.take(i as int).push(*l));
            assert(src@.take(i + 1).map_values(f) =~= src@.take(i as int).map_values(f).push(l@));
            src@.take(i as int).map_values(f).lemma_push_to_set_commute(l@);
            assert(leak_set(dst@) =~= leak_set(old(dst)@) + leak_set(src@.take(i + 1)));
        }
        i = i + 1;
    }
    assert(src@.take(src.len() as int) =~= src@);
}

/// The connection that a flow from `src` opened at `ts` is given to, if any
/// (see `chosen_for`).
fn choose_connection(versioned: &Vec<VersionedNetworkConnection>, src: &String, ts: u128) -> (r: Option<usize>)
    ensures
        match r {
            Some(k) => k < versioned@.len() && chosen_for(conn_keys(conn_models(versioned@)), src@, ts, k as int),
            None => forall|k: int| !#[trigger] chosen_for(conn_keys(conn_models(versioned@)), src@, ts, k),
        },
{
    let ghost keys = conn_keys(conn_models(versioned@));
    let n = versioned.len();
    let mut count: usize = 0;
    let mut first: usize = 0;
    let mut second: usize = 0;
    let mut smallest: Option<u128> = None;
    let mut best: usize = 0;
    let mut j: usize = 0;
    while j < n
        invariant
            n == versioned@.len(),
            keys == conn_keys(conn_models(versioned@)),
            keys.len() == n,
            j <= n,
            count <= 2,
            count == 0 ==> forall|c: int| !#[trigger] is_candidate(keys, src@, j as int, c),
            count >= 1 ==> is_candidate(keys, src@, j as int, first as int),
            count == 1 ==> single_candidate(keys, src@, j as int, first as int),
            count == 2 ==> is_candidate(keys, src@, j as int, second as int) && second != first,
            smallest is None ==> forall|c: int| #[trigger] is_candidate(keys, src@, j as int, c) ==> keys[c].1 > ts,
            smallest matches Some(d) ==> d == ts - keys[best as int].1 && closest_candidate(keys, src@, ts, j as int, best as int),
        decreases n - j,
    {
        let c = &versioned[j];
        assert(keys[j as int] == (c.src_addr@, c.ts));
        if c.src_addr == *src {
            if count == 0 {
                first = j;
                count = 1;
            } else if count == 1 {
                second = j;
                count = 2;
            }
            if c.ts <= ts {
                let better = match smallest {
                    None => true,
                    Some(s) => ts - c.ts < s,
                };
                if better {
                    smallest = Some(ts - c.ts);
                    best = j;
                }
            }
        }
        let ghost prev = j as int;
        j = j + 1;
        proof {
            assert forall|x: int| #[trigger] is_candidate(keys, src@, j as int, x) implies is_candidate(keys, src@, prev, x) || x == prev by {}
            if smallest is None {
                assert forall|x: int| #[trigger] is_candidate(keys, src@, j as int, x) implies keys[x].1 > ts by {
                    if x != prev {
                        assert(is_candidate(keys, src@, prev, x));
                    }
                }
            }
        }
    }
    if count == 0 {
        assert forall|k: int| !#[trigger] chosen_for(keys, src@, ts, k) by {
            if is_candidate(keys, src@, n as int, k) {}
        }
        None
    } else if count == 1 {
        Some(first)
    } else {
        assert(!(exists|x: int| #[trigger] single_candidate(keys, src@, n as int, x))) by {
            if exists|x: int| #[trigger] single_candidate(keys, src@, n as int, x) {
                let x = choose|x: int| #[trigger] single_candidate(keys, src@, n as int, x);
                assert(is_candidate(keys, src@, n as int, first as int));
                assert(is_candidate(keys, src@, n as int, second as int));
            }
        }
        match smallest {
            Some(_) => Some(best),
            None => {
                assert forall|k: int| !#[trigger] chosen_for(keys, src@, ts, k) by {
                    if closest_candidate(keys, src@, ts, n as int, k) {
                        assert(is_candidate(keys, src@, n as int, k));
                    }
                }
                None
            },
        }
    }
}

/// Connection `a` and `b` agree on everything but their leaks and
/// destination.
pub open spec fn same_but_leaks(a: ConnModel, b: ConnModel) -> bool {
    &&& a.version == b.version
    &&& a.src_addr == b.src_addr
    &&& a.importance == b.importance
    &&& a.tid == b.tid
    &&& a.pid == b.pid
    &&& a.target == b.target
    &&& a.ts == b.ts
}

/// Gives the leaks of each flow to the connection it is tied to (see
/// `chosen_for`: by source address and opening time), which also takes the
/// flow's destination.
pub fn attach_leaks(versioned: &mut Vec<VersionedNetworkConnection>, network_leaks: &Vec<(Vec<Leak>, ConnectionInfo)>)
    requires
        forall|k: int| 0 <= k < old(versioned)@.len() ==> distinct_leaks(#[trigger] old(versioned)@[k].leaks@),
    ensures
        final(versioned)@.len() == old(versioned)@.len(),
        forall|k: int|
            0 <= k < final(versioned)@.len() ==> {
                let keys = conn_keys(conn_models(old(versioned)@));
                &&& same_but_leaks(#[trigger] final(versioned)@[k]@, old(versioned)@[k]@)
                &&& distinct_leaks(final(versioned)@[k].leaks@)
                &&& leak_set(final(versioned)@[k].leaks@) == leak_set(old(versioned)@[k].leaks@) + leaks_given(
                    keys,
                    network_leaks@,
                    k,
                )
                &&& final(versioned)@[k]@.destination_addr == destination_after(
                    keys,
                    network_leaks@,
                    k,
                    old(versioned)@[k]@.destination_addr,
                )
            },
{
    let ghost orig = versioned@;
    let ghost keys = conn_keys(conn_models(orig));
    let mut i: usize = 0;
    while i < network_leaks.len()
        invariant
            i <= network_leaks.len(),
            orig == old(versioned)@,
            keys == conn_keys(conn_models(orig)),
            versioned@.len() == orig.len(),
            conn_keys(conn_models(versioned@)) == keys,
            forall|k: int|
                0 <= k < versioned@.len() ==> {
                    &&& same_but_leaks(#[trigger] versioned@[k]@, orig[k]@)
                    &&& distinct_leaks(versioned@[k].leaks@)
                    &&& leak_set(versioned@[k].leaks@) == leak_set(orig[k].leaks@) + leaks_given(
                        keys,
                        network_leaks@.take(i as int),
                        k,
                    )
                    &&& versioned@[k]@.destination_addr == destination_after(
                        keys,
                        network_leaks@.take(i as int),
                        k,
                        orig[k]@.destination_addr,
                    )
                },
        decreases network_leaks.len() - i,
    {
        let (leaks, info) = &network_leaks[i];
        let ghost items = network_leaks@.take(i as int);
        let ghost items2 = network_leaks@.take(i + 1);
        proof {
            assert(items2.drop_last() =~= items);
            assert(items2.last() == network_leaks@[i as int]);
        }
        let chosen = choose_connection(versioned, &info.source_address, info.timestamp as u128);
        let ghost before = versioned@;
        match chosen {
            Some(k) => {
                let mut c = copy_versioned(&versioned[k]);
                add_leaks(&mut c.leaks, leaks);
                c.destination_addr = Some(info.destination_address.clone());
                versioned.set(k, c);
                proof {
                    assert(conn_keys(conn_models(versioned@)) =~= keys) by {
                        assert forall|x: int| 0 <= x < versioned@.len() implies conn_keys(conn_models(versioned@))[x] == keys[x] by {
                            if x != k {
                                assert(versioned@[x] == before[x]);
                            }
                        }
                    }
                }
            },
            None => {},
        }
        proof {
            assert forall|x: int| 0 <= x < versioned@.len() implies {
                &&& same_but_leaks(#[trigger] versioned@[x]@, orig[x]@)
                &&& distinct_leaks(versioned@[x].leaks@)
                &&& leak_set(versioned@[x].leaks@) == leak_set(orig[x].leaks@) + leaks_given(keys, items2, x)
                &&& versioned@[x]@.destination_addr == destination_after(keys, items2, x, orig[x]@.destination_addr)
            } by {
                let hit = flow_chosen(keys, network_leaks@[i as int], x);
                match chosen {
                    Some(k) => {
                        if hit {
                            lemma_chosen_unique(keys, info.source_address@, info.timestamp as u128, x, k as int);
                        }
                        assert(hit == (k as int == x));
                    },
                    None => {
                        assert(!hit);
                    },
                }
                if hit {
                    assert(leaks_given(keys, items2, x) =~= leaks_given(keys, items, x) + leak_set(leaks@)) by {
                        assert forall|y: (Seq<char>, bool, bool, i32)| leaks_given(keys, items2, x).contains(y) implies (leaks_given(keys, items, x) + leak_set(leaks@)).contains(y) by {
                            let a = choose|a: int| 0 <= a < items2.len() && #[trigger] flow_chosen(keys, items2[a], x) && leak_set(items2[a].0@).contains(y);
                            if a < i {
                                assert(items[a] == items2[a]);
                            }
                        }
                        assert forall|y: (Seq<char>, bool, bool, i32)| (leaks_given(keys, items, x) + leak_set(leaks@)).contains(y) implies leaks_given(keys, items2, x).contains(y) by {
                            if leaks_given(keys, items, x).contains(y) {
                                let a = choose|a: int| 0 <= a < items.len() && #[trigger] flow_chosen(keys, items[a], x) && leak_set(items[a].0@).contains(y);
                                assert(items2[a] == items[a]);
                            } else {
                                assert(flow_chosen(keys, items2[i as int], x));
                            }
                        }
                    }
                } else {
                    assert(versioned@[x] == before[x]);
                    assert(leaks_given(keys, items2, x) =~= leaks_given(keys, items, x)) by {
                        assert forall|y: (Seq<char>, bool, bool, i32)| leaks_given(keys, items2, x).contains(y) implies leaks_given(keys, items, x).contains(y) by {
                            let a = choose|a: int| 0 <= a < items2.len() && #[trigger] flow_chosen(keys, items2[a], x) && leak_set(items2[a].0@).contains(y);
                            assert(a != i);
                            assert(items[a] == items2[a]);
                        }
                        assert forall|y: (Seq<char>, bool, bool, i32)| leaks_given(keys, items, x).contains(y) implies leaks_given(keys, items2, x).contains(y) by {
                            let a = choose|a: int| 0 <= a < items.len() && #[trigger] flow_chosen(keys, items[a], x) && leak_set(items[a].0@).contains(y);
                            assert(items2[a] == items[a]);
                        }
                    }
                }
            }
        }
        i = i + 1;
    }
    assert(network_leaks@.take(network_leaks.len() as int) =~= network_leaks@);
}

} // verus!
