use h3server::report::{analyze_requests, compare_h2_h3_request, group_headers_readable, DiffType, GroupDiff, ReportDiff};
use h3server::report_text::{report_text, write_group_diff};
use h3server::RequestInCSV;

fn req(uri: &str, version: &str, withquic: bool, header: &str, body: Option<&str>) -> RequestInCSV {
    RequestInCSV {
        _id: "id".to_string(),
        app: "app".to_string(),
        withquic,
        uri: uri.to_string(),
        method: "GET".to_string(),
        version: version.to_string(),
        header: header.to_string(),
        bodytype: None,
        bodyplaintext: body.map(|b| b.to_string()),
    }
}

fn has_diff(diffs: &[ReportDiff], kind: DiffType, header: &str, values: &[&str]) -> bool {
    diffs.iter().any(|d| {
        d.diff == kind
            && d.diff_header == header
            && d.h3_vs.len() == values.len()
            && values.iter().all(|v| d.h3_vs.iter().any(|x| x == v))
    })
}

#[test]
fn compare_reports_new_values_headers_and_bodies() {
    let group = vec![
        req("u", "HTTP/2", false, r#"{"a":"1","b":"2"}"#, Some("x")),
        req("u", "HTTP/3", true, r#"{"a":"9","c":"3"}"#, Some("y")),
    ];
    let diffs = compare_h2_h3_request(&group);
    assert_eq!(diffs.len(), 3);
    assert!(has_diff(&diffs, DiffType::DIFFERENT, "a", &["9"]));
    assert!(has_diff(&diffs, DiffType::DISTINCT, "c", &["3"]));
    assert!(has_diff(&diffs, DiffType::DISTINCT, "body", &["y"]));
    assert_eq!(diffs[2].diff_header, "body");
}

#[test]
fn compare_ignores_quic_runs_over_http2() {
    let group = vec![
        req("u", "HTTP/2", true, r#"{"a":"1"}"#, Some("x")),
        req("u", "HTTP/3", true, r#"{"a":"1"}"#, Some("x")),
    ];
    let diffs = compare_h2_h3_request(&group);
    assert_eq!(diffs.len(), 2);
    assert!(has_diff(&diffs, DiffType::DISTINCT, "a", &["1"]));
    assert!(has_diff(&diffs, DiffType::DISTINCT, "body", &["x"]));
}

#[test]
fn nothing_new_over_http3_reports_nothing() {
    let group = vec![
        req("u", "HTTP/2", false, r#"{"a":"1","b":"2"}"#, Some("x")),
        req("u", "HTTP/3", true, r#"{"a":"1"}"#, Some("x")),
    ];
    assert!(compare_h2_h3_request(&group).is_empty());
}

#[test]
fn distinct_header_lists_all_values() {
    let group = vec![
        req("u", "HTTP/3", true, r#"{"k":"1"}"#, None),
        req("u", "HTTP/3", true, r#"{"k":"2"}"#, None),
        req("u", "HTTP/3", true, r#"{"k":"1"}"#, None),
    ];
    let diffs = compare_h2_h3_request(&group);
    assert_eq!(diffs.len(), 1);
    assert!(has_diff(&diffs, DiffType::DISTINCT, "k", &["1", "2"]));
}

#[test]
fn unreadable_headers_are_detected() {
    let group = vec![req("u", "HTTP/2", false, "not json", None)];
    assert!(!group_headers_readable(&group));
    let ignored = vec![req("u", "HTTP/2", true, "not json", None)];
    assert!(group_headers_readable(&ignored));
}

#[test]
fn analyze_compares_every_group() {
    let reqs = vec![
        req("u1", "HTTP/2", false, r#"{"a":"1"}"#, None),
        req("u1", "HTTP/3", true, r#"{"a":"2"}"#, None),
        req("u2", "HTTP/3", true, r#"{"z":"1"}"#, None),
        req("u3", "HTTP/3", true, r#"{"y":"1"}"#, None),
    ];
    let (groups, complete) = analyze_requests(reqs);
    assert!(complete);
    assert_eq!(groups.len(), 3);
    assert_eq!(groups[0].uri, "u1");
    assert!(has_diff(&groups[0].diffs, DiffType::DIFFERENT, "a", &["2"]));
    assert_eq!(groups[1].uri, "u2");
    assert!(has_diff(&groups[1].diffs, DiffType::DISTINCT, "z", &["1"]));
    assert_eq!(groups[2].uri, "u3");
    assert!(has_diff(&groups[2].diffs, DiffType::DISTINCT, "y", &["1"]));
}

#[test]
fn analyze_reports_an_unreadable_last_group() {
    let reqs = vec![
        req("u1", "HTTP/3", true, r#"{"a":"1"}"#, None),
        req("u2", "HTTP/2", false, "broken", None),
    ];
    let (groups, complete) = analyze_requests(reqs);
    assert!(!complete);
    assert_eq!(groups.len(), 1);
}

#[test]
fn analyze_stops_at_an_unreadable_group() {
    let reqs = vec![
        req("u1", "HTTP/3", true, r#"{"a":"1"}"#, None),
        req("u2", "HTTP/2", false, "broken", None),
        req("u3", "HTTP/3", true, r#"{"a":"1"}"#, None),
    ];
    let (groups, complete) = analyze_requests(reqs);
    assert!(!complete);
    assert_eq!(groups.len(), 1);
    assert_eq!(groups[0].uri, "u1");
}

#[test]
fn analyze_of_nothing_is_complete_and_empty() {
    let (groups, complete) = analyze_requests(vec![]);
    assert!(complete);
    assert!(groups.is_empty());
}

fn diff(kind: DiffType, header: &str, values: &[&str]) -> ReportDiff {
    ReportDiff {
        diff: kind,
        diff_header: header.to_string(),
        h3_vs: values.iter().map(|v| v.to_string()).collect(),
    }
}

const SEP: &str = "\n\n= = = = = = = = = = = = = = = = = = = =\n\n";
const END: &str = "\n\n+ + + + + + + + + + + + + + + + + + + +\n\n";

#[test]
fn group_report_text_is_exact() {
    let diffs = vec![
        diff(DiffType::DIFFERENT, "ua", &["v3"]),
        diff(DiffType::DISTINCT, "x", &["1", "2"]),
        diff(DiffType::DISTINCT, "body", &["hello"]),
    ];
    let text = write_group_diff("app", "/u", &diffs);
    let expected = format!(
        "\n\nWhile using app: app\nUri: /u\n\
         \nhttp3 request has different header:\n\nHeader: ua\nValue in http3:\nv3\n{SEP}\
         \nhttp3 request has distinct header:\n\nHttp3 specific Header: x\n\nCaptured value of this header:\n1\n2\n{SEP}\
         \nhttp3 request has specific body:\nhello{SEP}{END}"
    );
    assert_eq!(text, expected);
}

#[test]
fn ignored_header_value_leaves_only_the_heading() {
    let v = "\"Android WebView\";v=\"129\", \"Not=A?Brand\";v=\"8\", \"Chromium\";v=\"129\"";
    let diffs = vec![diff(DiffType::DIFFERENT, "sec-ch-ua", &[v])];
    let text = write_group_diff("app", "/u", &diffs);
    assert_eq!(
        text,
        format!("\n\nWhile using app: app\nUri: /u\n\nhttp3 request has different header:\n{END}")
    );
}

#[test]
fn report_text_skips_groups_without_differences() {
    let groups = vec![
        GroupDiff { uri: "/a".to_string(), diffs: vec![] },
        GroupDiff { uri: "/b".to_string(), diffs: vec![diff(DiffType::DISTINCT, "body", &["b"])] },
    ];
    let text = report_text("app", &groups);
    assert_eq!(text, write_group_diff("app", "/b", &groups[1].diffs));
}
