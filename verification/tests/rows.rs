use cloudcheck::descriptor::{default_host_jsons, host_jsons_from_rows};
use cloudcheck::{HostError, HostJson};

fn fields_of(hj: &HostJson) -> (String, String, String, String) {
    (
        hj.hostname().to_owned(),
        hj.path().to_owned(),
        hj.array_pointer().to_owned(),
        hj.field().to_owned(),
    )
}

#[test]
fn row_parses_like_direct_construction() {
    let row = "Google Cloud,data/google-cloud-ranges.json,/prefixes,ipv4Prefix";
    let parsed = HostJson::from_csv_row(row).unwrap();
    let direct =
        HostJson::new("Google Cloud", "data/google-cloud-ranges.json", "/prefixes", "ipv4Prefix");
    assert_eq!(fields_of(&parsed), fields_of(&direct));
}

#[test]
fn short_row_is_rejected() {
    match HostJson::from_csv_row("A,B,C").unwrap_err() {
        HostError::InvalidRow { row, found } => {
            assert_eq!(row, "A,B,C");
            assert_eq!(found, 3);
        },
        other => panic!("expected InvalidRow, got {:?}", other),
    }
}

#[test]
fn long_row_is_rejected() {
    match HostJson::from_csv_row("A,B,C,D,E").unwrap_err() {
        HostError::InvalidRow { row, found } => {
            assert_eq!(row, "A,B,C,D,E");
            assert_eq!(found, 5);
        },
        other => panic!("expected InvalidRow, got {:?}", other),
    }
}

#[test]
fn empty_fields_still_count() {
    let parsed = HostJson::from_csv_row("A,,C,").unwrap();
    assert_eq!(fields_of(&parsed), ("A".into(), "".into(), "C".into(), "".into()));
}

#[test]
fn rows_parse_in_order() {
    let rows = vec!["A,B,C,D".to_string(), "E,F,G,H".to_string()];
    let hjs = host_jsons_from_rows(&rows).unwrap();
    assert_eq!(hjs.len(), 2);
    assert_eq!(fields_of(&hjs[0]), ("A".into(), "B".into(), "C".into(), "D".into()));
    assert_eq!(fields_of(&hjs[1]), ("E".into(), "F".into(), "G".into(), "H".into()));
}

#[test]
fn first_bad_row_stops_parsing() {
    let rows = vec!["A,B,C,D".to_string(), "oops".to_string(), "E,F,G,H".to_string()];
    match host_jsons_from_rows(&rows).unwrap_err() {
        HostError::InvalidRow { row, found } => {
            assert_eq!(row, "oops");
            assert_eq!(found, 1);
        },
        other => panic!("expected InvalidRow, got {:?}", other),
    }
}

#[test]
fn built_in_descriptors() {
    let defaults = default_host_jsons();
    assert_eq!(defaults.len(), 2);
    assert_eq!(
        fields_of(&defaults[0]),
        (
            "Google Cloud".into(),
            "data/google-cloud-ranges.json".into(),
            "/prefixes".into(),
            "ipv4Prefix".into(),
        )
    );
    assert_eq!(
        fields_of(&defaults[1]),
        (
            "Amazon Web Services".into(),
            "data/aws-ranges.json".into(),
            "/prefixes".into(),
            "ip_prefix".into(),
        )
    );
}
