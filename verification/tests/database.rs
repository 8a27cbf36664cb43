use cloudcheck::descriptor::default_host_jsons;
use cloudcheck::extract::{cidrs_from_fields, extract_from_json};
use cloudcheck::hosts::{get_address_host, Host, OwnedNetwork};
use cloudcheck::{HostDatabase, HostError, HostJson, Ipv4Cidr};

fn ip(a: u32, b: u32, c: u32, d: u32) -> u32 {
    ((a * 256 + b) * 256 + c) * 256 + d
}

fn google_descriptor() -> HostJson {
    HostJson::new("Google Cloud", "data/google-cloud-ranges.json", "/prefixes", "ipv4Prefix")
}

#[test]
fn lookup_scenario() {
    let descriptors = vec![google_descriptor()];
    let documents = vec![
        r#"{"prefixes":[{"ipv4Prefix":"8.8.8.0/24"},{"ipv4Prefix":"8.8.4.0/24"}]}"#.to_string(),
    ];
    let db = HostDatabase::from_jsons(&descriptors, &documents).unwrap();
    assert_eq!(db.get_host(ip(8, 8, 8, 8)), Some("Google Cloud"));
    assert_eq!(db.get_host(ip(8, 8, 4, 4)), Some("Google Cloud"));
    assert_eq!(db.get_host(ip(1, 1, 1, 1)), None);
}

#[test]
fn defaults_build_with_documents() {
    let defaults = default_host_jsons();
    let documents = vec![
        r#"{"prefixes":[{"ipv4Prefix":"8.8.8.0/24"}]}"#.to_string(),
        r#"{"prefixes":[{"ip_prefix":"3.5.0.0/16"},{"ipv6_prefix":"2600::/32"}]}"#.to_string(),
    ];
    let db = HostDatabase::from_jsons(&defaults, &documents).unwrap();
    assert_eq!(db.get_host(ip(8, 8, 8, 8)), Some("Google Cloud"));
    assert_eq!(db.get_host(ip(3, 5, 1, 2)), Some("Amazon Web Services"));
    assert_eq!(db.get_host(ip(1, 1, 1, 1)), None);
}

#[test]
fn lookup_is_repeatable() {
    let descriptors = vec![google_descriptor()];
    let documents = vec![r#"{"prefixes":[{"ipv4Prefix":"8.8.8.0/24"}]}"#.to_string()];
    let db = HostDatabase::from_jsons(&descriptors, &documents).unwrap();
    let first = db.get_host(ip(8, 8, 8, 1)).map(str::to_owned);
    for _ in 0..3 {
        assert_eq!(db.get_host(ip(8, 8, 8, 1)).map(str::to_owned), first);
    }
    assert!(db.get_host(ip(9, 9, 9, 9)).is_none());
    assert!(db.get_host(ip(9, 9, 9, 9)).is_none());
}

#[test]
fn earlier_host_wins_overlap() {
    let descriptors = vec![
        HostJson::new("First", "a.json", "/prefixes", "p"),
        HostJson::new("Second", "b.json", "/prefixes", "p"),
    ];
    let documents = vec![
        r#"{"prefixes":[{"p":"10.0.0.0/8"}]}"#.to_string(),
        r#"{"prefixes":[{"p":"10.0.0.0/16"}]}"#.to_string(),
    ];
    let db = HostDatabase::from_jsons(&descriptors, &documents).unwrap();
    assert_eq!(db.get_host(ip(10, 0, 1, 2)), Some("First"));
}

#[test]
fn entries_missing_field_are_skipped() {
    // Two entries carry the field, one lacks it, one holds a non-string:
    // exactly the two present strings become subnets.
    let doc = r#"{"prefixes":[
        {"ipv4Prefix":"8.8.8.0/24"},
        {"ipv6Prefix":"2600::/32"},
        {"ipv4Prefix":"9.9.9.0/24"},
        {"ipv4Prefix":42}
    ]}"#;
    let subnets = extract_from_json(&google_descriptor(), doc).unwrap();
    assert_eq!(subnets.len(), 2);
    assert_eq!(subnets[0], Ipv4Cidr { addr: ip(8, 8, 8, 0), prefix: 24 });
    assert_eq!(subnets[1], Ipv4Cidr { addr: ip(9, 9, 9, 0), prefix: 24 });
}

#[test]
fn malformed_cidr_fails_build() {
    let descriptors = vec![google_descriptor()];
    let documents =
        vec![r#"{"prefixes":[{"ipv4Prefix":"8.8.8.0/24"},{"ipv4Prefix":"10.0.0.0/abc"}]}"#
            .to_string()];
    let err = HostDatabase::from_jsons(&descriptors, &documents).unwrap_err();
    match err {
        HostError::InvalidCidr { cidr } => assert_eq!(cidr, "10.0.0.0/abc"),
        other => panic!("expected InvalidCidr, got {:?}", other),
    }
}

#[test]
fn invalid_json_fails_build() {
    let descriptors = vec![google_descriptor()];
    let documents = vec!["this is not json".to_string()];
    let err = HostDatabase::from_jsons(&descriptors, &documents).unwrap_err();
    match err {
        HostError::ParseError { path } => assert_eq!(path, "data/google-cloud-ranges.json"),
        other => panic!("expected ParseError, got {:?}", other),
    }
}

#[test]
fn pointer_not_array_fails_build() {
    let descriptors = vec![google_descriptor()];
    for doc in [r#"{"prefixes":5}"#, r#"{"other":[]}"#, "[1,2,3]"] {
        let documents = vec![doc.to_string()];
        let err = HostDatabase::from_jsons(&descriptors, &documents).unwrap_err();
        match err {
            HostError::InvalidFormat { path } => {
                assert_eq!(path, "data/google-cloud-ranges.json")
            },
            other => panic!("expected InvalidFormat, got {:?}", other),
        }
    }
}

#[test]
fn empty_prefix_array_builds_empty_host() {
    let descriptors = vec![google_descriptor()];
    let documents = vec![r#"{"prefixes":[]}"#.to_string()];
    let db = HostDatabase::from_jsons(&descriptors, &documents).unwrap();
    assert_eq!(db.get_host(ip(8, 8, 8, 8)), None);
}

#[test]
fn cidrs_from_fields_skips_absent() {
    let fields = vec![
        Some("1.2.3.0/24".to_string()),
        None,
        Some("4.4.0.0/16".to_string()),
        None,
    ];
    let cidrs = cidrs_from_fields(&fields).unwrap();
    assert_eq!(cidrs.len(), 2);
    assert_eq!(cidrs[0], Ipv4Cidr { addr: ip(1, 2, 3, 0), prefix: 24 });
    assert_eq!(cidrs[1], Ipv4Cidr { addr: ip(4, 4, 0, 0), prefix: 16 });
}

#[test]
fn cidrs_from_fields_reports_first_bad() {
    let fields = vec![
        Some("1.2.3.0/24".to_string()),
        Some("bad".to_string()),
        Some("also/bad".to_string()),
    ];
    match cidrs_from_fields(&fields).unwrap_err() {
        HostError::InvalidCidr { cidr } => assert_eq!(cidr, "bad"),
        other => panic!("expected InvalidCidr, got {:?}", other),
    }
}

#[test]
fn cidr_notation_accept_set() {
    // ipnet's parser allows leading zeros in octets and in the prefix,
    // unlike the standard library's address parser, and accepts nothing
    // before or after the block.
    let ok = cidrs_from_fields(&vec![
        Some("08.8.8.0/24".to_string()),
        Some("8.8.8.0/04".to_string()),
        Some("0.0.0.0/0".to_string()),
        Some("255.255.255.255/32".to_string()),
    ])
    .unwrap();
    assert_eq!(ok[0], Ipv4Cidr { addr: ip(8, 8, 8, 0), prefix: 24 });
    assert_eq!(ok[1], Ipv4Cidr { addr: ip(8, 8, 8, 0), prefix: 4 });
    assert_eq!(ok[2], Ipv4Cidr { addr: 0, prefix: 0 });
    assert_eq!(ok[3], Ipv4Cidr { addr: u32::MAX, prefix: 32 });
    let bad_blocks = [
        "8.8.8.0/33",
        "8.8.8.0",
        "8.8.8.0/8/9",
        "8.8.8.0/24 ",
        " 8.8.8.0/24",
        "8.8.8.0/",
        "8.8.8/24",
        "256.0.0.0/8",
        "8.8.8.0/+24",
        "1234.1.1.1/8",
        "8.8.8.0/024",
    ];
    for bad in bad_blocks {
        let err = cidrs_from_fields(&vec![Some(bad.to_string())]).unwrap_err();
        assert!(matches!(err, HostError::InvalidCidr { .. }), "accepted: {}", bad);
    }
}

#[test]
fn address_host_classification() {
    let nets = vec![
        OwnedNetwork {
            host: Host::GoogleCloud,
            subnets: vec![Ipv4Cidr { addr: ip(8, 8, 8, 0), prefix: 24 }],
        },
        OwnedNetwork {
            host: Host::AmazonWebServices,
            subnets: vec![Ipv4Cidr { addr: ip(8, 8, 0, 0), prefix: 16 }],
        },
    ];
    assert_eq!(get_address_host(ip(8, 8, 8, 1), &nets), Some(Host::GoogleCloud));
    assert_eq!(get_address_host(ip(8, 8, 1, 1), &nets), Some(Host::AmazonWebServices));
    assert_eq!(get_address_host(ip(7, 7, 7, 7), &nets), None);
    assert_eq!(Host::GoogleCloud.name(), "Google Cloud");
    assert_eq!(Host::AmazonWebServices.name(), "Amazon Web Services");
}
