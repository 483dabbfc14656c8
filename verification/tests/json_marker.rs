use daily_report::json::{from_json, report_from_object, report_object, to_json, JsonObject, JsonValue};
use daily_report::marker::{
    append_data_marker, append_data_marker_checked, append_payload, extract_data_marker, marker_payload,
    report_from_json_bytes, MARKER,
};
use daily_report::report::ReportData;

fn sample() -> ReportData {
    let mut d = ReportData::new();
    d.insert_text("location".to_string(), "102 Ave \"North\"".to_string());
    d.insert_text("date".to_string(), "2024-06-03".to_string());
    d.insert_check("barr_arrival".to_string());
    d
}

#[test]
fn to_json_writes_sorted_compact_object() {
    let d = sample();
    assert_eq!(
        to_json(&d),
        "{\"barr_arrival\":true,\"date\":\"2024-06-03\",\"location\":\"102 Ave \\\"North\\\"\"}"
    );
}

#[test]
fn to_json_of_empty_form() {
    assert_eq!(to_json(&ReportData::new()), "{}");
}

#[test]
fn check_wins_over_text_of_same_name() {
    let mut d = ReportData::new();
    d.insert_text("x".to_string(), "v".to_string());
    d.insert_check("x".to_string());
    assert_eq!(to_json(&d), "{\"x\":true}");
    let back = from_json(&to_json(&d));
    assert_eq!(back.t("x"), "");
    assert!(back.c("x"));
}

#[test]
fn json_round_trip() {
    let d = sample();
    let back = from_json(&to_json(&d));
    assert_eq!(back.t("location"), d.t("location"));
    assert_eq!(back.t("date"), d.t("date"));
    assert!(back.c("barr_arrival"));
    assert_eq!(back.text_pairs().len(), 2);
    assert_eq!(back.check_names().len(), 1);
}

#[test]
fn from_json_keeps_strings_and_true_only() {
    let d = from_json("{\"a\":\"x\",\"b\":true,\"c\":false,\"d\":3,\"e\":null,\"f\":[1],\"g\":{\"h\":1}}");
    assert_eq!(d.t("a"), "x");
    assert!(d.c("b"));
    assert!(!d.c("c"));
    assert_eq!(d.t("d"), "");
    assert_eq!(d.text_pairs().len(), 1);
    assert_eq!(d.check_names().len(), 1);
}

#[test]
fn from_json_of_non_object_is_empty() {
    for s in ["", "not json", "[1,2]", "\"text\"", "{\"a\":"] {
        let d = from_json(s);
        assert_eq!(d.text_pairs().len(), 0);
        assert_eq!(d.check_names().len(), 0);
    }
}

#[test]
fn object_of_report_and_back() {
    let d = sample();
    let obj = report_object(&d);
    assert_eq!(obj.members.len(), 3);
    let back = report_from_object(&obj);
    assert_eq!(back.t("date"), "2024-06-03");
    assert!(back.c("barr_arrival"));
    let other = JsonObject {
        members: vec![
            ("k".to_string(), JsonValue::Str("v".to_string())),
            ("t".to_string(), JsonValue::Bool(true)),
            ("f".to_string(), JsonValue::Bool(false)),
            ("o".to_string(), JsonValue::Other),
        ],
    };
    let r = report_from_object(&other);
    assert_eq!(r.t("k"), "v");
    assert!(r.c("t"));
    assert!(!r.c("f"));
    assert_eq!(r.text_pairs().len(), 1);
}

#[test]
fn marker_round_trips() {
    let data = sample();
    let mut bytes = b"%PDF-1.7\n1 0 obj\n<<>>\nendobj\n%%EOF".to_vec();
    append_data_marker(&mut bytes, &data);
    let back = extract_data_marker(&bytes).unwrap();
    assert_eq!(back.t("location"), data.t("location"));
    assert_eq!(back.c("barr_arrival"), data.c("barr_arrival"));
}

#[test]
fn marker_block_is_base64_of_json() {
    let mut d = ReportData::new();
    d.insert_text("a".to_string(), "b".to_string());
    let mut bytes = Vec::new();
    append_data_marker(&mut bytes, &d);
    assert_eq!(bytes, b"\n%%DCPR-DATA:eyJhIjoiYiJ9\n".to_vec());
    assert_eq!(MARKER, "%%DCPR-DATA:");
}

#[test]
fn checked_append_appends() {
    let d = sample();
    let mut a = b"%PDF".to_vec();
    let mut b = b"%PDF".to_vec();
    assert!(append_data_marker_checked(&mut a, &d));
    append_data_marker(&mut b, &d);
    assert_eq!(a, b);
}

#[test]
fn last_marker_wins() {
    let mut first = ReportData::new();
    first.insert_text("location".to_string(), "old".to_string());
    let mut second = ReportData::new();
    second.insert_text("location".to_string(), "new".to_string());
    let mut bytes = b"%PDF".to_vec();
    append_data_marker(&mut bytes, &first);
    append_data_marker(&mut bytes, &second);
    assert_eq!(extract_data_marker(&bytes).unwrap().t("location"), "new");
}

#[test]
fn extract_without_marker_is_none() {
    assert!(extract_data_marker(b"%PDF-1.7 no data here").is_none());
    assert!(extract_data_marker(b"").is_none());
    assert!(extract_data_marker(b"%%DCPR-DATA").is_none());
}

#[test]
fn extract_with_bad_payload_is_none() {
    assert!(extract_data_marker(b"%PDF\n%%DCPR-DATA:not*base64\n").is_none());
    // "/w==" is base64 of the byte 0xFF, which is not UTF-8.
    assert!(extract_data_marker(b"%PDF\n%%DCPR-DATA:/w==\n").is_none());
}

#[test]
fn extract_of_non_object_json_is_empty_form() {
    // "WzFd" is base64 of "[1]".
    let d = extract_data_marker(b"%%DCPR-DATA:WzFd").unwrap();
    assert_eq!(d.text_pairs().len(), 0);
    assert_eq!(d.check_names().len(), 0);
}

#[test]
fn payload_stops_at_line_end() {
    assert_eq!(marker_payload(b"x%%DCPR-DATA:abc\ndef"), Some(&b"abc"[..]));
    assert_eq!(marker_payload(b"%%DCPR-DATA:"), Some(&b""[..]));
    assert_eq!(marker_payload(b"%%DCPR-DATA:a\n%%DCPR-DATA:b"), Some(&b"b"[..]));
    assert_eq!(marker_payload(b"%%DCPR-DAT"), None);
    let mut v = b"pdf".to_vec();
    append_payload(&mut v, b"xyz");
    assert_eq!(v, b"pdf\n%%DCPR-DATA:xyz\n".to_vec());
    assert_eq!(marker_payload(&v), Some(&b"xyz"[..]));
}

#[test]
fn json_bytes_must_be_utf8() {
    assert!(report_from_json_bytes(vec![0xff, 0xfe]).is_none());
    let d = report_from_json_bytes(b"{\"k\":\"v\"}".to_vec()).unwrap();
    assert_eq!(d.t("k"), "v");
}
