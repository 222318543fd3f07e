//! Comparing the leaks found over HTTP/2 and HTTP/3 in the runs of an app.
use crate::db::Leak;
use crate::strset::{distinct_strings, insert_string, contains_string, string_set};
use crate::text::{str_eq, string_views};
use vstd::prelude::*;

verus! {

/// A network connection of a run, with the HTTP version of its requests and
/// the leaks found in it; `leaks` holds no leak twice.
pub struct VersionedNetworkConnection {
    pub version: String,
    pub src_addr: String,
    pub destination_addr: Option<String>,
    pub importance: i32,
    pub tid: i32,
    pub pid: i32,
    pub target: Option<String>,
    pub ts: u128,
    pub leaks: Vec<Leak>,
}

/// The mathematical value of a connection.
pub struct ConnModel {
    pub version: Seq<char>,
    pub src_addr: Seq<char>,
    pub destination_addr: Option<Seq<char>>,
    pub importance: i32,
    pub tid: i32,
    pub pid: i32,
    pub target: Option<Seq<char>>,
    pub ts: u128,
    pub leaks: Seq<Leak>,
}

pub open spec fn opt_view(o: Option<String>) -> Option<Seq<char>> {
    match o {
        Some(s) => Some(s@),
        None => None,
    }
}

impl View for VersionedNetworkConnection {
    type V = ConnModel;

    open spec fn view(&self) -> ConnModel {
        ConnModel {
            version: self.version@,
            src_addr: self.src_addr@,
            destination_addr: opt_view(self.destination_addr),
            importance: self.importance,
            tid: self.tid,
            pid: self.pid,
            target: opt_view(self.target),
            ts: self.ts,
            leaks: self.leaks@,
        }
    }
}

pub open spec fn conn_models(cs: Seq<VersionedNetworkConnection>) -> Seq<ConnModel> {
    cs.map_values(|c: VersionedNetworkConnection| c@)
}

/// How the leaks of two sets compare: the numbers and the names of the
/// leaks found only in the first, only in the second, and in both.
pub struct LeakComparison {
    pub distinct_leak1_num: usize,
    pub distinct_leak2_num: usize,
    pub common_leak_num: usize,
    pub distinct_leak1: Vec<String>,
    pub distinct_leak2: Vec<String>,
    pub common_leak: Vec<String>,
}

/// The leak comparisons of an app's runs: within the run with HTTP/3, its
/// HTTP/2 leaks against its HTTP/3 leaks; the HTTP/2 run's leaks against the
/// HTTP/3 leaks of the other run; all leaks of the run with HTTP/3 against
/// those of the HTTP/2 run; and the destinations of the HTTP/3 connections.
pub struct ResultOutput {
    pub h2h3: LeakComparison,
    pub h3_h2: LeakComparison,
    pub h2h3_h2: LeakComparison,
    pub h3_domains: Vec<String>,
}

/// The names of the leaks of the connections.
pub open spec fn leak_names(cs: Seq<ConnModel>) -> Set<Seq<char>> {
    Set::new(
        |n: Seq<char>|
            exists|i: int, j: int|
                0 <= i < cs.len() && 0 <= j < cs[i].leaks.len() && #[trigger] cs[i].leaks[j].leak@ == n,
    )
}

/// The names of the leaks of the connections, each once.
pub fn get_leak_set(connections: &[VersionedNetworkConnection]) -> (r: Vec<String>)
    ensures
        distinct_strings(r@),
        string_set(r@) == leak_names(conn_models(connections@)),
{
    let ghost cm = conn_models(connections@);
    let mut leaks: Vec<String> = Vec::new();
    let mut i: usize = 0;
    assert(string_set(leaks@) =~= leak_names(cm.take(0)));
    while i < connections.len()
        invariant
            i <= connections.len(),
            cm == conn_models(connections@),
            distinct_strings(leaks@),
            string_set(leaks@) == leak_names(cm.take(i as int)),
        decreases connections.len() - i,
    {
        let c = &connections[i];
        assert(cm[i as int] == c@);
        let ghost before = string_set(leaks@);
        let mut j: usize = 0;
        while j < c.leaks.len()
            invariant
                j <= c.leaks.len(),
                distinct_strings(leaks@),
                string_set(leaks@) == before + Set::new(
                    |n: Seq<char>| exists|b: int| 0 <= b < j && #[trigger] c.leaks@[b].leak@ == n,
                ),
            decreases c.leaks.len() - j,
        {
            insert_string(&mut leaks, c.leaks[j].leak.clone());
            proof {
                let prev = Set::new(|n: Seq<char>| exists|b: int| 0 <= b < j && #[trigger] c.leaks@[b].leak@ == n);
                let next = Set::new(|n: Seq<char>| exists|b: int| 0 <= b < j + 1 && #[trigger] c.leaks@[b].leak@ == n);
                assert(next =~= prev.insert(c.leaks@[j as int].leak@));
            }
            j = j + 1;
        }
        proof {
            let done = Set::new(|n: Seq<char>| exists|b: int| 0 <= b < c.leaks@.len() && #[trigger] c.leaks@[b].leak@ == n);
            let p = cm.take(i as int);
            let q = cm.take(i + 1);
            assert forall|n: Seq<char>| leak_names(q).contains(n) implies #[trigger] (before + done).contains(n) by {
                let (a, b) = choose|a: int, b: int| 0 <= a < q.len() && 0 <= b < q[a].leaks.len() && #[trigger] q[a].leaks[b].leak@ == n;
                if a < i {
                    assert(p[a] == q[a]);
                    assert(leak_names(p).contains(n));
                } else {
                    assert(q[a] == c@);
                }
            }
            assert forall|n: Seq<char>| (before + done).contains(n) implies #[trigger] leak_names(q).contains(n) by {
                if before.contains(n) {
                    let (a, b) = choose|a: int, b: int| 0 <= a < p.len() && 0 <= b < p[a].leaks.len() && #[trigger] p[a].leaks[b].leak@ == n;
                    assert(q[a] == p[a]);
                } else {
                    let b = choose|b: int| 0 <= b < c.leaks@.len() && #[trigger] c.leaks@[b].leak@ == n;
                    assert(q[i as int] == c@);
                    assert(q[i as int].leaks[b].leak@ == n);
                }
            }
            assert(string_set(leaks@) =~= leak_names(q));
        }
        i = i + 1;
    }
    assert(cm.take(connections.len() as int) =~= cm);
    leaks
}

/// The names of two sets of leaks split into those only in the first, those
/// only in the second, and those in both, each once.
pub fn compare_two_leak_sets(leaks1: &Vec<String>, leaks2: &Vec<String>) -> (r: (Vec<String>, Vec<String>, Vec<String>))
    ensures
        distinct_strings(r.0@),
        distinct_strings(r.1@),
        distinct_strings(r.2@),
        string_set(r.0@) == string_set(leaks1@).difference(string_set(leaks2@)),
        string_set(r.1@) == string_set(leaks2@).difference(string_set(leaks1@)),
        string_set(r.2@) == string_set(leaks1@).intersect(string_set(leaks2@)),
{
    let ghost a = string_set(leaks1@);
    let ghost b = string_set(leaks2@);
    let mut distinct_leak1: Vec<String> = Vec::new();
    let mut distinct_leak2: Vec<String> = Vec::new();
    let mut common_leak: Vec<String> = Vec::new();
    let mut i: usize = 0;
    assert(string_set(distinct_leak1@) =~= string_views(leaks1@).take(0).to_set().difference(b));
    assert(string_set(common_leak@) =~= string_views(leaks1@).take(0).to_set().intersect(b));
    while i < leaks1.len()
        invariant
            i <= leaks1.len(),
            a == string_set(leaks1@),
            b == string_set(leaks2@),
            distinct_strings(distinct_leak1@),
            distinct_strings(common_leak@),
            string_set(distinct_leak1@) == string_views(leaks1@).take(i as int).to_set().difference(b),
            string_set(common_leak@) == string_views(leaks1@).take(i as int).to_set().intersect(b),
        decreases leaks1.len() - i,
    {
        let l = &leaks1[i];
        proof {
            assert(string_views(leaks1@).take(i + 1) =~= string_views(leaks1@).take(i as int).push(l@));
            string_views(leaks1@).take(i as int).lemma_push_to_set_commute(l@);
        }
        if contains_string(leaks2, l) {
            insert_string(&mut common_leak, l.clone());
            assert(string_set(common_leak@) =~= string_views(leaks1@).take(i + 1).to_set().intersect(b));
            assert(string_set(distinct_leak1@) =~= string_views(leaks1@).take(i + 1).to_set().difference(b));
        } else {
            insert_string(&mut distinct_leak1, l.clone());
            assert(string_set(common_leak@) =~= string_views(leaks1@).take(i + 1).to_set().intersect(b));
            assert(string_set(distinct_leak1@) =~= string_views(leaks1@).take(i + 1).to_set().difference(b));
        }
        i = i + 1;
    }
    assert(string_views(leaks1@).take(leaks1.len() as int) =~= string_views(leaks1@));
    let mut j: usize = 0;
    assert(string_set(distinct_leak2@) =~= string_views(leaks2@).take(0).to_set().difference(a));
    while j < leaks2.len()
        invariant
            j <= leaks2.len(),
            a == string_set(leaks1@),
            b == string_set(leaks2@),
            distinct_strings(distinct_leak2@),
            string_set(distinct_leak2@) == string_views(leaks2@).take(j as int).to_set().difference(a),
        decreases leaks2.len() - j,
    {
        let l = &leaks2[j];
        proof {
            assert(string_views(leaks2@).take(j + 1) =~= string_views(leaks2@).take(j as int).push(l@));
            string_views(leaks2@).take(j as int).lemma_push_to_set_commute(l@);
        }
        if !contains_string(leaks1, l) {
            insert_string(&mut distinct_leak2, l.clone());
        }
        assert(string_set(distinct_leak2@) =~= string_views(leaks2@).take(j + 1).to_set().difference(a));
        j = j + 1;
    }
    assert(string_views(leaks2@).take(leaks2.len() as int) =~= string_views(leaks2@));
    (distinct_leak1, distinct_leak2, common_leak)
}

/// The comparison is that of the two sets of names.
pub open spec fn compares(c: LeakComparison, a: Set<Seq<char>>, b: Set<Seq<char>>) -> bool {
    &&& distinct_strings(c.distinct_leak1@)
    &&& distinct_strings(c.distinct_leak2@)
    &&& distinct_strings(c.common_leak@)
    &&& string_set(c.distinct_leak1@) == a.difference(b)
    &&& string_set(c.distinct_leak2@) == b.difference(a)
    &&& string_set(c.common_leak@) == a.intersect(b)
    &&& c.distinct_leak1_num == c.distinct_leak1@.len()
    &&& c.distinct_leak2_num == c.distinct_leak2@.len()
    &&& c.common_leak_num == c.common_leak@.len()
}

impl LeakComparison {
    /// The comparison of two sets of leak names.
    pub fn of_sets(leaks1: &Vec<String>, leaks2: &Vec<String>) -> (r: LeakComparison)
        ensures
            compares(r, string_set(leaks1@), string_set(leaks2@)),
    {
        let (d1, d2, c) = compare_two_leak_sets(leaks1, leaks2);
        LeakComparison {
            distinct_leak1_num: d1.len(),
            distinct_leak2_num: d2.len(),
            common_leak_num: c.len(),
            distinct_leak1: d1,
            distinct_leak2: d2,
            common_leak: c,
        }
    }
}

/// A connection of requests sent over HTTP/3.
pub open spec fn is_h3_connection(c: ConnModel) -> bool {
    c.version == "HTTP/3"@
}

/// Whether a connection is of the HTTP/3 side (`h3`) or of the other one.
pub open spec fn version_pred(h3: bool) -> spec_fn(ConnModel) -> bool {
    |c: ConnModel| is_h3_connection(c) == h3
}

/// The connections of one side, in order.
pub open spec fn side_connections(cs: Seq<ConnModel>, h3: bool) -> Seq<ConnModel> {
    cs.filter(version_pred(h3))
}

/// The connection's destination is `d`.
pub open spec fn has_destination(c: ConnModel, d: Seq<char>) -> bool {
    c.destination_addr == Some(d)
}

/// The destinations of the connections that have one.
pub open spec fn destinations(cs: Seq<ConnModel>) -> Set<Seq<char>> {
    Set::new(
        |d: Seq<char>|
            exists|i: int| 0 <= i < cs.len() && #[trigger] has_destination(cs[i], d),
    )
}

fn copy_leak(l: &Leak) -> (r: Leak)
    ensures
        r == *l,
{
    Leak { leak: l.leak.clone(), is_send: l.is_send, is_encrypted: l.is_encrypted, connection_id: l.connection_id }
}

/// A copy of leaks.
pub fn copy_leaks(v: &Vec<Leak>) -> (r: Vec<Leak>)
    ensures
        r@ == v@,
{
    let mut r: Vec<Leak> = Vec::new();
    let mut i: usize = 0;
    while i < v.len()
        invariant
            i <= v.len(),
            r@ == v@.take(i as int),
        decreases v.len() - i,
    {
        r.push(copy_leak(&v[i]));
        assert(r@ =~= v@.take(i + 1));
        i = i + 1;
    }
    assert(v@.take(v.len() as int) =~= v@);
    r
}

fn copy_opt_string(o: &Option<String>) -> (r: Option<String>)
    ensures
        r == *o,
{
    match o {
        Some(s) => Some(s.clone()),
        None => None,
    }
}

/// A copy of a connection.
pub fn copy_versioned(c: &VersionedNetworkConnection) -> (r: VersionedNetworkConnection)
    ensures
        r@ == c@,
{
    VersionedNetworkConnection {
        version: c.version.clone(),
        src_addr: c.src_addr.clone(),
        destination_addr: copy_opt_string(&c.destination_addr),
        importance: c.importance,
        tid: c.tid,
        pid: c.pid,
        target: copy_opt_string(&c.target),
        ts: c.ts,
        leaks: copy_leaks(&c.leaks),
    }
}

/// The connections of one HTTP version (HTTP/3 or the others), in order.
fn connections_of_version(cs: &Vec<VersionedNetworkConnection>, h3: bool) -> (r: Vec<VersionedNetworkConnection>)
    ensures
        conn_models(r@) == side_connections(conn_models(cs@), h3),
{
    let ghost f = version_pred(h3);
    let ghost cm = conn_models(cs@);
    let mut r: Vec<VersionedNetworkConnection> = Vec::new();
    let mut i: usize = 0;
    proof {
        reveal(Seq::filter);
    }
    assert(cm.take(0).filter(f) =~= Seq::<ConnModel>::empty());
    assert(conn_models(r@) =~= Seq::<ConnModel>::empty());
    while i < cs.len()
        invariant
            i <= cs.len(),
            f == version_pred(h3),
            cm == conn_models(cs@),
            conn_models(r@) == cm.take(i as int).filter(f),
        decreases cs.len() - i,
    {
        let c = &cs[i];
        let is_h3 = str_eq(c.version.as_str(), "HTTP/3");
        assert(cm.take(i + 1).drop_last() =~= cm.take(i as int));
        assert(cm.take(i + 1).last() == c@);
        let ghost before = r@;
        assert(f(c@) == (is_h3 == h3));
        proof {
            reveal(Seq::filter);
        }
        assert(cm.take(i + 1).filter(f) == if f(c@) {
            cm.take(i as int).filter(f).push(c@)
        } else {
            cm.take(i as int).filter(f)
        });
        if is_h3 == h3 {
            let d = copy_versioned(c);
            r.push(d);
            assert(conn_models(r@) =~= conn_models(before).push(c@));
        }
        assert(conn_models(r@) =~= cm.take(i + 1).filter(f));
        i = i + 1;
    }
    assert(cm.take(cs.len() as int) =~= cm);
    r
}

/// The destinations of the connections, each once.
fn destinations_of(cs: &Vec<VersionedNetworkConnection>) -> (r: Vec<String>)
    ensures
        distinct_strings(r@),
        string_set(r@) == destinations(conn_models(cs@)),
{
    let ghost cm = conn_models(cs@);
    let mut r: Vec<String> = Vec::new();
    let mut i: usize = 0;
    assert(string_set(r@) =~= destinations(cm.take(0)));
    while i < cs.len()
        invariant
            i <= cs.len(),
            cm == conn_models(cs@),
            distinct_strings(r@),
            string_set(r@) == destinations(cm.take(i as int)),
        decreases cs.len() - i,
    {
        let ghost p = cm.take(i as int);
        let ghost q = cm.take(i + 1);
        assert(q[i as int] == cs@[i as int]@);
        let ghost before = string_set(r@);
        let ghost added: Set<Seq<char>> = match q[i as int].destination_addr {
            Some(d) => set![d],
            None => Set::empty(),
        };
        match &cs[i].destination_addr {
            Some(d) => {
                insert_string(&mut r, d.clone());
                assert(string_set(r@) =~= before + added);
            },
            None => {
                assert(string_set(r@) =~= before + added);
            },
        }
        proof {
            assert forall|x: Seq<char>| destinations(q).contains(x) implies #[trigger] (before + added).contains(x) by {
                let a = choose|a: int| 0 <= a < q.len() && #[trigger] has_destination(q[a], x);
                if a < i {
                    assert(p[a] == q[a]);
                    assert(destinations(p).contains(x));
                }
            }
            assert forall|x: Seq<char>| (before + added).contains(x) implies #[trigger] destinations(q).contains(x) by {
                if destinations(p).contains(x) {
                    let a = choose|a: int| 0 <= a < p.len() && #[trigger] has_destination(p[a], x);
                    assert(q[a] == p[a]);
                } else {
                    assert(has_destination(q[i as int], x));
                }
            }
            assert(string_set(r@) =~= destinations(q));
        }
        i = i + 1;
    }
    assert(cm.take(cs.len() as int) =~= cm);
    r
}

impl ResultOutput {
    /// Compares the leaks of the run with HTTP/3 (`h2h3`) and of the run
    /// without it (`h2`).
    pub fn from_runs(h2h3: &Vec<VersionedNetworkConnection>, h2: &Vec<VersionedNetworkConnection>) -> (r: ResultOutput)
        ensures
            compares(
                r.h2h3,
                leak_names(side_connections(conn_models(h2h3@), false)),
                leak_names(side_connections(conn_models(h2h3@), true)),
            ),
            compares(r.h3_h2, leak_names(conn_models(h2@)), leak_names(side_connections(conn_models(h2h3@), true))),
            compares(r.h2h3_h2, leak_names(conn_models(h2h3@)), leak_names(conn_models(h2@))),
            distinct_strings(r.h3_domains@),
            string_set(r.h3_domains@) == destinations(side_connections(conn_models(h2h3@), true)),
    {
        let h2_connections_h2h3 = connections_of_version(h2h3, false);
        let h2_leaks_h2h3 = get_leak_set(h2_connections_h2h3.as_slice());
        let h3_connections_h2h3 = connections_of_version(h2h3, true);
        let h3_leaks_h2h3 = get_leak_set(h3_connections_h2h3.as_slice());
        let c1 = LeakComparison::of_sets(&h2_leaks_h2h3, &h3_leaks_h2h3);
        let h2_leaks_h2 = get_leak_set(h2.as_slice());
        let c2 = LeakComparison::of_sets(&h2_leaks_h2, &h3_leaks_h2h3);
        let h2h3_leaks = get_leak_set(h2h3.as_slice());
        let c3 = LeakComparison::of_sets(&h2h3_leaks, &h2_leaks_h2);
        let h3_domains = destinations_of(&h3_connections_h2h3);
        ResultOutput { h2h3: c1, h3_h2: c2, h2h3_h2: c3, h3_domains }
    }
}

} // verus!
