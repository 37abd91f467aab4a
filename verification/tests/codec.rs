use sqbadge::error::{Error, ProofErr};
use sqbadge::proof_encoding::Proof;
use sqbadge::stellar_data::TOMLCurrency;

fn badge(code: &str) -> TOMLCurrency {
    TOMLCurrency {
        code: code.to_string(),
        issuer: "GISSUER".to_string(),
        image: String::new(),
        tag: String::new(),
    }
}

fn codes(p: &Proof) -> Vec<String> {
    p.owned_badges.iter().map(|b| b.code.clone()).collect()
}

#[test]
fn empty_proof_has_zero_hex_segment() {
    let p = Proof { owned_badges: vec![], timestamp: None, unique_id: None };
    assert_eq!(p.encode_v1().unwrap(), "v1.0..");
}

#[test]
fn single_badge_with_timestamp_and_id() {
    let p = Proof {
        owned_badges: vec![badge("SQ0101")],
        timestamp: Some(1700000000),
        unique_id: Some("hi".to_string()),
    };
    assert_eq!(p.encode_v1().unwrap(), "v1.2.1700000000.hi");
}

#[test]
fn two_tasks_of_one_series_pack_into_one_digit() {
    let p = Proof {
        owned_badges: vec![badge("SQ0101"), badge("SQ0103")],
        timestamp: None,
        unique_id: None,
    };
    assert_eq!(p.encode_v1().unwrap(), "v1.a..");
}

#[test]
fn special_badge_sets_the_low_bit() {
    let p = Proof { owned_badges: vec![badge("SSQ01")], timestamp: None, unique_id: None };
    assert_eq!(p.encode_v1().unwrap(), "v1.1..");
}

#[test]
fn second_series_starts_at_bit_nine() {
    let p = Proof { owned_badges: vec![badge("SSQ02")], timestamp: None, unique_id: None };
    assert_eq!(p.encode_v1().unwrap(), "v1.200..");
}

#[test]
fn duplicate_codes_encode_once() {
    let p = Proof {
        owned_badges: vec![badge("SQ0101"), badge("SQ0101")],
        timestamp: None,
        unique_id: None,
    };
    assert_eq!(p.encode_v1().unwrap(), "v1.2..");
}

#[test]
fn task_beyond_eight_is_dropped_from_the_encoding() {
    let p = Proof {
        owned_badges: vec![badge("SQ0109"), badge("SQ0101")],
        timestamp: None,
        unique_id: None,
    };
    assert_eq!(p.encode_v1().unwrap(), "v1.2..");
}

#[test]
fn code_outside_the_grammar_is_an_error() {
    let p = Proof { owned_badges: vec![badge("BADGE")], timestamp: None, unique_id: None };
    assert!(matches!(p.encode_v1(), Err(Error::Other(_))));
}

#[test]
fn delimiter_in_unique_id_is_an_error() {
    let p = Proof {
        owned_badges: vec![],
        timestamp: None,
        unique_id: Some("a.b".to_string()),
    };
    assert!(matches!(p.encode_v1(), Err(Error::Other(_))));
}

#[test]
fn wrong_version_is_rejected() {
    let r = Proof::decode_v1(&"v2.a.0.".to_string(), &vec![]);
    assert_eq!(r.unwrap_err(), Error::ProofErr(ProofErr::ProofWrongVersion));
}

#[test]
fn three_fields_are_rejected() {
    let r = Proof::decode_v1(&"v1.a".to_string(), &vec![]);
    assert_eq!(r.unwrap_err(), Error::ProofErr(ProofErr::ProofInvalidEncoding));
}

#[test]
fn round_trip_recovers_the_badge_set() {
    let catalog = vec![
        badge("SSQ01"),
        badge("SQ0101"),
        badge("SQ0102"),
        badge("SSQ02"),
        badge("SQ0205"),
        badge("SQ0308"),
    ];
    let chosen = vec![badge("SQ0101"), badge("SQ0205"), badge("SSQ02")];
    let p = Proof { owned_badges: chosen, timestamp: None, unique_id: None };
    let encoded = p.encode_v1().unwrap();
    let decoded = Proof::decode_v1(&encoded, &catalog).unwrap();
    assert_eq!(codes(&decoded), vec!["SQ0101", "SSQ02", "SQ0205"]);
    assert_eq!(decoded.timestamp, None);
    assert_eq!(decoded.unique_id, None);
}

#[test]
fn round_trip_keeps_timestamp_and_id() {
    let catalog = vec![badge("SQ0101")];
    let p = Proof {
        owned_badges: vec![badge("SQ0101")],
        timestamp: Some(42),
        unique_id: Some("note".to_string()),
    };
    let decoded = Proof::decode_v1(&p.encode_v1().unwrap(), &catalog).unwrap();
    assert_eq!(decoded.timestamp, Some(42));
    assert_eq!(decoded.unique_id, Some("note".to_string()));
}

#[test]
fn decode_follows_catalog_order() {
    let catalog = vec![badge("SQ0102"), badge("SQ0101")];
    let decoded = Proof::decode_v1(&"v1.6..".to_string(), &catalog).unwrap();
    assert_eq!(codes(&decoded), vec!["SQ0102", "SQ0101"]);
}

#[test]
fn claimed_code_missing_from_catalog_is_dropped() {
    let catalog = vec![badge("SQ0101")];
    let decoded = Proof::decode_v1(&"v1.6..".to_string(), &catalog).unwrap();
    assert_eq!(codes(&decoded), vec!["SQ0101"]);
}

#[test]
fn unreadable_hex_counts_as_zero() {
    let catalog = vec![badge("SQ0101")];
    let decoded = Proof::decode_v1(&"v1.zz..".to_string(), &catalog).unwrap();
    assert!(decoded.owned_badges.is_empty());
}

#[test]
fn task_beyond_eight_is_never_decoded() {
    // Every bit position names task 0 to 8 of some series, so a code with
    // task 9 can never be claimed, whatever the packed value holds.
    let catalog = vec![badge("SQ0109")];
    let decoded = Proof::decode_v1(&"v1.ffffffffff..".to_string(), &catalog).unwrap();
    assert!(decoded.owned_badges.is_empty());
}

#[test]
fn unreadable_timestamp_is_absent() {
    let decoded = Proof::decode_v1(&"v1.0.soon.".to_string(), &vec![]).unwrap();
    assert_eq!(decoded.timestamp, None);
}

#[test]
fn trailing_fields_join_into_the_id() {
    let decoded = Proof::decode_v1(&"v1.0..a.b".to_string(), &vec![]).unwrap();
    assert_eq!(decoded.unique_id, Some("ab".to_string()));
}

#[test]
fn uppercase_hex_is_read_too() {
    let catalog = vec![badge("SQ0101")];
    let decoded = Proof::decode_v1(&"v1.A..".to_string(), &catalog).unwrap();
    assert_eq!(codes(&decoded), vec!["SQ0101"]);
}

#[test]
fn large_series_round_trips() {
    let catalog = vec![badge("SQ9908"), badge("SSQ99")];
    let p = Proof {
        owned_badges: vec![badge("SQ9908"), badge("SSQ99")],
        timestamp: None,
        unique_id: None,
    };
    let encoded = p.encode_v1().unwrap();
    let decoded = Proof::decode_v1(&encoded, &catalog).unwrap();
    assert_eq!(codes(&decoded), vec!["SQ9908", "SSQ99"]);
}
