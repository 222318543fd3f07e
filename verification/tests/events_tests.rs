use base64::Engine;
use h3server::db::{IntentInfo, TimeDrivenJob};
use h3server::events::{Canary, Events, JobScheduler, SchedProcessFork, SocketHook, StackTrace, TaskInfo};
use h3server::http_meta::{
    headers_to_hashmap, host_addr, server_port, tunnel_for_alpn, version_to_string, HttpVersion, TunnelKind,
};
use h3server::text::{lines_of, parse_i128, parse_u32, parse_u64, split_char};
use std::io::Write;

fn encoded_trace(text: &str) -> String {
    let mut e = flate2::write::GzEncoder::new(Vec::new(), flate2::Compression::default());
    e.write_all(text.as_bytes()).unwrap();
    base64::prelude::BASE64_STANDARD.encode(e.finish().unwrap())
}

fn canary(value: &str, trace: &str) -> Canary {
    Canary {
        class_name: "c".to_string(),
        method_name: "m".to_string(),
        hashcode: 1,
        canary: value.to_string(),
        target: "t".to_string(),
        pid: 10,
        tid: 11,
        uid: 12,
        package_name: "p".to_string(),
        ts: 99,
        jtid: 0,
        importance: 4,
        stack_trace: trace.to_string(),
    }
}

#[test]
fn event_accessors_read_the_common_fields() {
    let e = Events::Canary(canary("1", ""));
    assert_eq!(e.get_uid(), 12);
    assert_eq!(e.timestamp(), 99);
    assert_eq!(e.importance(), 4);
    assert_eq!(e.get_ptid(), (10, 11));
    let o = Events::Other("x".to_string());
    assert_eq!(o.get_uid(), 0);
}

#[test]
fn kernel_events_use_parent_ids() {
    let f = Events::SchedProcessFork(SchedProcessFork { parent_pid: 5, parent_tid: 6, child_pid: 7, uid: 1, ts: 2 });
    assert_eq!(f.get_ptid(), (5, 5));
    let x = Events::SchedProcessExit(TaskInfo { parent_pid: 8, parent_tid: 9, uid: 1, ts: 2 });
    assert_eq!(x.get_ptid(), (9, 9));
}

#[test]
fn stack_traces_decode_to_lines() {
    let c = canary("1", &encoded_trace("a.B.onReceive(X)\r\nline two"));
    let lines = c.get_stack_trace().unwrap();
    assert_eq!(lines, vec!["a.B.onReceive(X)".to_string(), "line two".to_string()]);
    assert!(canary("1", "!!!").get_stack_trace().is_none());
}

#[test]
fn canary_work_names_follow_the_indicator() {
    let trace = encoded_trace(
        "android.Foo.bar(Foo.java:1)\ncom.app.MyReceiver.onReceive(MyReceiver.java:3)\nLSPHooker_.X.onReceive(Y)\n",
    );
    let c = canary("1abc", &trace);
    assert_eq!(
        c.get_work_name(),
        vec![("com.app.MyReceiver".to_string(), "onReceive".to_string())]
    );
    assert!(canary("2abc", &trace).get_work_name().is_empty());
    assert!(canary("", &trace).get_work_name().is_empty());
}

#[test]
fn socket_address_text_drops_the_host_name() {
    let s = SocketHook {
        class_name: "c".to_string(),
        method_name: "m".to_string(),
        hashcode: 0,
        local_addr: "host/10.0.0.1:5".to_string(),
        remote_addr: "1.2.3.4:443".to_string(),
        canary: String::new(),
        pid: 0,
        tid: 0,
        uid: 0,
        package_name: String::new(),
        ts: 0,
        jtid: 0,
        importance: 0,
        stack_trace: String::new(),
    };
    assert_eq!(s.local_socket_addr_text(), "10.0.0.1:5");
    assert_eq!(s.remote_socket_addr_text(), "1.2.3.4:443");
}

fn job() -> JobScheduler {
    JobScheduler {
        class_name: String::new(),
        method_name: String::new(),
        hashcode: 0,
        job_id: 0,
        backoff_policy: 0,
        clip_data: String::new(),
        clip_grant_flags: 0,
        estimated_network_download_bytes: 0,
        estimated_network_upload_bytes: 0,
        flex_millis: 0,
        initial_backoff_millis: 0,
        interval_millis: 0,
        max_execution_delay_millis: 0,
        min_latency_millis: 0,
        minimum_network_chunk_bytes: 0,
        network_type: 0,
        priority: 0,
        service: String::new(),
        required_network_capabilities: vec![],
        required_network_transport_types: vec![],
        trigger_content_max_delay: 0,
        trigger_content_update_delay: 0,
        trigger_content_uris: String::new(),
        is_expedited: false,
        is_important_while_foreground: false,
        is_periodic: false,
        is_persisted: false,
        is_prefetch: false,
        is_require_battery_not_low: false,
        is_require_charging: false,
        is_require_device_idle: false,
        is_require_storage_not_low: false,
        pid: 0,
        tid: 0,
        uid: 0,
        package_name: String::new(),
        ts: 0,
        jtid: 0,
        importance: 0,
        stack_trace: String::new(),
    }
}

#[test]
fn jobs_split_into_event_and_time_conditions() {
    let plain = job();
    assert!(plain.into_event().is_none());
    assert!(plain.into_time().is_none());
    let mut charging = job();
    charging.is_require_charging = true;
    charging.interval_millis = 900000;
    let e = charging.into_event().unwrap();
    assert!(e.is_require_charging);
    let t = charging.into_time().unwrap();
    assert_eq!(t.interval_millis, 900000);
    assert_eq!(t.time_slot(), 6);
}

fn tjob(min_latency: i64, interval: i64) -> TimeDrivenJob {
    TimeDrivenJob {
        min_latency_millis: min_latency,
        max_execution_delay_millis: 0,
        interval_millis: interval,
        flex_millis: 0,
        initial_backoff_millis: 0,
    }
}

#[test]
fn time_slots_bucket_delays() {
    assert_eq!(tjob(0, 0).time_slot(), 0);
    assert_eq!(tjob(10000, 0).time_slot(), 0);
    assert_eq!(tjob(10001, 0).time_slot(), 1);
    assert_eq!(tjob(60001, 0).time_slot(), 2);
    assert_eq!(tjob(1800001, 0).time_slot(), 3);
    assert_eq!(tjob(-1, 0).time_slot(), 3);
    assert_eq!(tjob(0, 5000).time_slot(), 4);
    assert_eq!(tjob(0, 60000).time_slot(), 5);
    assert_eq!(tjob(0, 99999999).time_slot(), 7);
}

fn intent(extras: &[(&str, &str)]) -> IntentInfo {
    IntentInfo {
        action: "a".to_string(),
        data: "d".to_string(),
        component: "c".to_string(),
        extras: extras.iter().map(|(k, v)| (k.to_string(), v.to_string())).collect(),
        intent_package: "p".to_string(),
        alarm_info: None,
    }
}

#[test]
fn intents_compare_without_their_alarm() {
    assert!(intent(&[("k", "v")]).eq_no_alarm(&intent(&[("k", "v")])));
    assert!(!intent(&[("k", "v")]).eq_no_alarm(&intent(&[("k", "w")])));
}

#[test]
fn text_parsing_matches_std() {
    assert_eq!(parse_u32("+42"), Some(42));
    assert_eq!(parse_u32("4294967296"), None);
    assert_eq!(parse_u64("18446744073709551615"), Some(u64::MAX));
    assert_eq!(parse_i128("-17"), Some(-17));
    assert_eq!(parse_i128("-"), None);
    assert_eq!(parse_i128("1a"), None);
    assert_eq!(split_char("a::b", ':'), vec!["a", "", "b"]);
    assert_eq!(lines_of("x\r\ny\n"), vec!["x".to_string(), "y".to_string()]);
}

#[test]
fn versions_have_their_names() {
    assert_eq!(version_to_string(&HttpVersion::Http3), "HTTP/3");
    assert_eq!(version_to_string(&HttpVersion::Http11), "HTTP/1.1");
    assert_eq!(version_to_string(&HttpVersion::Other), "Unknown HTTP Version");
}

#[test]
fn header_maps_keep_text_values_and_the_last_one() {
    let hs = vec![
        ("a".to_string(), b"1".to_vec()),
        ("b".to_string(), vec![0x80u8]),
        ("a".to_string(), b"2\t3".to_vec()),
    ];
    assert_eq!(headers_to_hashmap(&hs), vec![("a".to_string(), "2\t3".to_string())]);
}

#[test]
fn host_addr_prefers_the_authority() {
    assert_eq!(host_addr(Some("a.com".to_string()), Some(b"b.com".to_vec()), "/x".to_string()), Some("a.com".to_string()));
    assert_eq!(host_addr(None, Some(b"b.com".to_vec()), "/x".to_string()), Some("b.com".to_string()));
    assert_eq!(host_addr(None, None, "/x".to_string()), Some("/x".to_string()));
}

#[test]
fn alpn_picks_the_tunnel() {
    assert_eq!(tunnel_for_alpn(b"h2"), TunnelKind::Http2);
    assert_eq!(tunnel_for_alpn(b"http/1.1"), TunnelKind::Http1);
    assert_eq!(tunnel_for_alpn(b"h3"), TunnelKind::Raw);
    assert_eq!(server_port("example.com"), "example.com:443");
}
