use mapper::feed::{alert_from_fields, alerts_extract, collect_alerts, parse_degrees};
use mapper::request::{complete_quadrant, fetched_layers};

#[test]
fn parse_degrees_plain_decimals() {
    assert_eq!(parse_degrees("51.5"), Some(515_000_000));
    assert_eq!(parse_degrees("-0.1278"), Some(-1_278_000));
    assert_eq!(parse_degrees("180"), Some(1_800_000_000));
    assert_eq!(parse_degrees("0"), Some(0));
    assert_eq!(parse_degrees("-0"), Some(0));
}

#[test]
fn parse_degrees_truncates_extra_places() {
    assert_eq!(parse_degrees("12.34567891"), Some(123_456_789));
    assert_eq!(parse_degrees("-12.34567899"), Some(-123_456_789));
    assert_eq!(parse_degrees("0.00000001"), Some(0));
}

#[test]
fn parse_degrees_exponents() {
    assert_eq!(parse_degrees("1e-7"), Some(1));
    assert_eq!(parse_degrees("1.5e-7"), Some(1));
    assert_eq!(parse_degrees("5e+02"), Some(5_000_000_000));
    assert_eq!(parse_degrees("1E2"), Some(1_000_000_000));
    assert_eq!(parse_degrees("2.5e1"), Some(250_000_000));
    assert_eq!(parse_degrees("1e-9999"), Some(0));
}

#[test]
fn parse_degrees_rejects_malformed_text() {
    for text in ["", "-", "1.", ".5", "1e", "1e+", "abc", "1x", "+1", "1.2.3", " 1", "1e5x"] {
        assert_eq!(parse_degrees(text), None, "{}", text);
    }
}

#[test]
fn parse_degrees_rejects_out_of_range() {
    assert_eq!(parse_degrees("1e30"), None);
    assert_eq!(parse_degrees("1e-10000"), None);
    assert_eq!(parse_degrees("1234567890123456789012345678901"), None);
    assert_eq!(parse_degrees("922337203685.4775807"), Some(i64::MAX));
    assert_eq!(parse_degrees("922337203685.4775808"), None);
}

fn names(json: &str) -> Vec<(String, String, i64, i64)> {
    let doc: serde_json::Value = serde_json::from_str(json).unwrap();
    alerts_extract(&doc)
        .into_iter()
        .map(|a| (a.icon, a.subicon, a.position.lat, a.position.lon))
        .collect()
}

#[test]
fn alerts_extract_reads_sorts_and_skips() {
    let json = r#"{"alerts":[
        {"type":"JAM","subtype":"","location":{"x":-0.1,"y":51.5}},
        {"type":"POLICE","subtype":"P","location":{"x":2,"y":52}},
        {"type":"BAD","location":{"x":1,"y":1}},
        {"type":"HAZARD","subtype":"","location":{"x":"1","y":2}},
        {"type":"ACCIDENT","subtype":"A","location":{"x":0.5,"y":51.5}},
        {"type":"ROAD_CLOSED","subtype":"","location":{"x":3}}
    ]}"#;
    assert_eq!(
        names(json),
        vec![
            ("POLICE".to_string(), "P".to_string(), 520_000_000, 20_000_000),
            ("ACCIDENT".to_string(), "A".to_string(), 515_000_000, 5_000_000),
            ("JAM".to_string(), String::new(), 515_000_000, -1_000_000),
        ]
    );
}

#[test]
fn alerts_extract_without_alert_array() {
    assert!(names("{}").is_empty());
    assert!(names(r#"{"alerts":3}"#).is_empty());
    assert!(names("[1,2]").is_empty());
    assert!(names(r#"{"alerts":[]}"#).is_empty());
}

fn some(t: &str) -> Option<String> {
    Some(t.to_string())
}

#[test]
fn alert_from_fields_reads_complete_records() {
    let a = alert_from_fields(some("JAM"), some("JAM_HEAVY_TRAFFIC"), some("51.5"), some("-0.125"))
        .unwrap();
    assert_eq!(a.icon, "JAM");
    assert_eq!(a.subicon, "JAM_HEAVY_TRAFFIC");
    assert_eq!((a.position.lat, a.position.lon), (515_000_000, -1_250_000));
}

#[test]
fn alert_from_fields_rejects_incomplete_records() {
    assert!(alert_from_fields(None, some(""), some("1"), some("2")).is_none());
    assert!(alert_from_fields(some("JAM"), None, some("1"), some("2")).is_none());
    assert!(alert_from_fields(some("JAM"), some(""), None, some("2")).is_none());
    assert!(alert_from_fields(some("JAM"), some(""), some("1"), None).is_none());
    assert!(alert_from_fields(some("JAM"), some(""), some("1e40"), some("2")).is_none());
    assert!(alert_from_fields(some("JAM"), some(""), some("1"), some("x")).is_none());
}

#[test]
fn collect_alerts_keeps_one_alert_per_good_record() {
    let records = vec![
        (some("JAM"), some(""), some("1"), some("2")),
        (some("BAD"), None, some("5"), some("5")),
        (some("POLICE"), some("P"), some("3"), some("0")),
        (some("ACCIDENT"), some(""), some("x"), some("0")),
        (some("HAZARD"), some("H"), some("1"), some("2")),
    ];
    let out: Vec<(String, i64)> =
        collect_alerts(records).into_iter().map(|a| (a.icon, a.position.lat)).collect();
    assert_eq!(
        out,
        vec![
            ("POLICE".to_string(), 30_000_000),
            ("JAM".to_string(), 10_000_000),
            ("HAZARD".to_string(), 10_000_000),
        ]
    );
    assert!(collect_alerts(Vec::new()).is_empty());
}

#[test]
fn fetched_layers_drops_failures_in_order() {
    let got = fetched_layers(vec![Some(vec![1]), None, Some(vec![3]), None]);
    assert_eq!(got, vec![vec![1], vec![3]]);
    assert!(fetched_layers(vec![None, None]).is_empty());
}

#[test]
fn complete_quadrant_needs_all_four() {
    let full = complete_quadrant(vec![Some(vec![1]), Some(vec![2]), Some(vec![3]), Some(vec![4])]);
    assert_eq!(full, Some(vec![vec![1], vec![2], vec![3], vec![4]]));
    assert_eq!(complete_quadrant(vec![Some(vec![1]), None, Some(vec![3]), Some(vec![4])]), None);
}
