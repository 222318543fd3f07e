use h3server::analysis::{
    attach_leaks, fake_get_network_connections, find_closest_network_connection_v, version_connections,
};
use h3server::data::ConnectionInfo;
use h3server::db::{Leak, NetworkConnection};
use h3server::results::{compare_two_leak_sets, get_leak_set, LeakComparison, ResultOutput, VersionedNetworkConnection};

fn strings(v: &[&str]) -> Vec<String> {
    v.iter().map(|s| s.to_string()).collect()
}

fn sorted(mut v: Vec<String>) -> Vec<String> {
    v.sort();
    v
}

fn leak(name: &str) -> Leak {
    Leak { leak: name.to_string(), is_send: true, is_encrypted: false, connection_id: i32::MAX }
}

fn conn(version: &str, src: &str, ts: u128, leaks: &[&str], dest: Option<&str>) -> VersionedNetworkConnection {
    VersionedNetworkConnection {
        version: version.to_string(),
        src_addr: src.to_string(),
        destination_addr: dest.map(|d| d.to_string()),
        importance: 0,
        tid: 0,
        pid: 0,
        target: None,
        ts,
        leaks: leaks.iter().map(|l| leak(l)).collect(),
    }
}

fn info(src: &str, dest: &str, ts: u64) -> ConnectionInfo {
    ConnectionInfo { source_address: src.to_string(), destination_address: dest.to_string(), tls: true, timestamp: ts }
}

#[test]
fn compare_two_leak_sets_splits_three_ways() {
    let (d1, d2, common) = compare_two_leak_sets(&strings(&["a", "b", "a"]), &strings(&["b", "c"]));
    assert_eq!(d1, strings(&["a"]));
    assert_eq!(d2, strings(&["c"]));
    assert_eq!(common, strings(&["b"]));
}

#[test]
fn comparison_counts_add_up() {
    let a = strings(&["a", "b", "c"]);
    let b = strings(&["c", "d"]);
    let c = LeakComparison::of_sets(&a, &b);
    assert_eq!(c.distinct_leak1_num + c.common_leak_num, 3);
    assert_eq!(c.distinct_leak2_num + c.common_leak_num, 2);
    assert_eq!(sorted(c.distinct_leak1), strings(&["a", "b"]));
    assert_eq!(c.common_leak, strings(&["c"]));
}

#[test]
fn get_leak_set_names_each_leak_once() {
    let cs = vec![conn("HTTP/2", "s", 1, &["imei", "gps"], None), conn("HTTP/3", "s", 2, &["imei"], None)];
    assert_eq!(sorted(get_leak_set(&cs)), strings(&["gps", "imei"]));
    assert!(get_leak_set(&[]).is_empty());
}

#[test]
fn result_output_compares_the_runs() {
    let h2h3 = vec![
        conn("HTTP/2", "s", 1, &["imei"], Some("a.com")),
        conn("HTTP/3", "s", 2, &["gps", "imei"], Some("b.com")),
        conn("HTTP/3", "s", 3, &[], None),
    ];
    let h2 = vec![conn("HTTP/1.1", "s", 1, &["email"], None)];
    let r = ResultOutput::from_runs(&h2h3, &h2);
    assert_eq!(r.h2h3.distinct_leak1_num, 0);
    assert_eq!(r.h2h3.distinct_leak2, strings(&["gps"]));
    assert_eq!(r.h2h3.common_leak, strings(&["imei"]));
    assert_eq!(r.h3_h2.distinct_leak1, strings(&["email"]));
    assert_eq!(sorted(r.h3_h2.distinct_leak2.clone()), strings(&["gps", "imei"]));
    assert_eq!(r.h2h3_h2.common_leak_num, 0);
    assert_eq!(r.h3_domains, strings(&["b.com"]));
}

#[test]
fn fake_connections_copy_the_flow_information() {
    let nl = vec![(vec![leak("imei")], info("1.1.1.1:1", "d", 42))];
    let cs: Vec<NetworkConnection> = fake_get_network_connections(&nl);
    assert_eq!(cs.len(), 1);
    assert_eq!(cs[0].src_addr, "1.1.1.1:1");
    assert_eq!(cs[0].destination_addr, None);
    assert_eq!(cs[0].ts, 42);
    assert_eq!(cs[0].leaks, vec![leak("imei")]);
}

#[test]
fn closest_versioned_connection_is_the_latest_not_after() {
    let cs = vec![conn("v", "s", 10, &[], None), conn("v", "s", 20, &[], None), conn("v", "s", 30, &[], None)];
    let c = find_closest_network_connection_v(25, cs).unwrap();
    assert_eq!(c.ts, 20);
    let cs = vec![conn("v", "s", 10, &[], None), conn("v", "s", 20, &[], None)];
    assert!(find_closest_network_connection_v(5, cs).is_none());
    let single = vec![conn("v", "s", 100, &[], None)];
    assert_eq!(find_closest_network_connection_v(5, single).unwrap().ts, 100);
    assert!(find_closest_network_connection_v(5, vec![]).is_none());
}

#[test]
fn closest_prefers_the_first_of_equal_times() {
    let cs = vec![conn("a", "s", 10, &[], None), conn("b", "s", 10, &[], None)];
    assert_eq!(find_closest_network_connection_v(10, cs).unwrap().version, "a");
}

#[test]
fn version_connections_matches_by_time() {
    let nl = vec![(vec![leak("imei")], info("s", "d", 20)), (vec![], info("t", "d", 20))];
    let ncs = fake_get_network_connections(&nl);
    let records = vec![(20u64, "HTTP/3".to_string()), (99u64, "HTTP/2".to_string())];
    let vs = version_connections(&ncs, &records);
    assert_eq!(vs.len(), 1);
    assert_eq!(vs[0].version, "HTTP/3");
    assert_eq!(vs[0].src_addr, "s");
    assert_eq!(vs[0].leaks, vec![leak("imei")]);
}

#[test]
fn attach_leaks_gives_flows_to_the_closest_connection() {
    let mut vs = vec![
        conn("HTTP/2", "A", 10, &["x"], None),
        conn("HTTP/2", "A", 20, &[], None),
        conn("HTTP/2", "B", 5, &[], None),
    ];
    let nl = vec![
        (vec![leak("imei"), leak("x")], info("A", "a.com", 25)),
        (vec![leak("gps")], info("B", "b.com", 1)),
        (vec![leak("mac")], info("C", "c.com", 1)),
    ];
    attach_leaks(&mut vs, &nl);
    assert_eq!(vs[0].leaks, vec![leak("x")]);
    assert_eq!(vs[0].destination_addr, None);
    assert_eq!(vs[1].leaks, vec![leak("imei"), leak("x")]);
    assert_eq!(vs[1].destination_addr, Some("a.com".to_string()));
    assert_eq!(vs[2].leaks, vec![leak("gps")]);
    assert_eq!(vs[2].destination_addr, Some("b.com".to_string()));
}

#[test]
fn attach_leaks_adds_no_leak_twice() {
    let mut vs = vec![conn("HTTP/3", "A", 10, &["imei"], None)];
    let nl = vec![(vec![leak("imei")], info("A", "x", 10)), (vec![leak("imei")], info("A", "y", 10))];
    attach_leaks(&mut vs, &nl);
    assert_eq!(vs[0].leaks, vec![leak("imei")]);
    assert_eq!(vs[0].destination_addr, Some("y".to_string()));
}
