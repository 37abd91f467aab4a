use sqbadge::envelope::{parse_signed_parts, unwrap_signed_message, wrap_signed_message};

#[test]
fn unwrap_splits_the_three_fields() {
    let blob = base64::encode("sig1:GABCDE:hello");
    let (signature, public_key, plain) = unwrap_signed_message(&blob).unwrap();
    assert_eq!(signature, "sig1");
    assert_eq!(public_key, "GABCDE");
    assert_eq!(plain, "hello");
}

#[test]
fn wrap_produces_real_base64_of_the_joined_fields() {
    let blob = wrap_signed_message("sig1", "GABCDE", "hello");
    let bytes = base64::decode(&blob).unwrap();
    assert_eq!(String::from_utf8(bytes).unwrap(), "sig1:GABCDE:hello");
}

#[test]
fn wrap_then_unwrap_round_trips() {
    let blob = wrap_signed_message("s", "GKEY", "a message");
    assert_eq!(
        unwrap_signed_message(&blob).unwrap(),
        ("s".to_string(), "GKEY".to_string(), "a message".to_string())
    );
}

#[test]
fn colons_in_the_message_are_not_reinserted() {
    let blob = base64::encode("sig:pk:a:b:c");
    let (_, _, plain) = unwrap_signed_message(&blob).unwrap();
    assert_eq!(plain, "abc");
}

#[test]
fn text_that_is_no_base64_fails() {
    assert_eq!(unwrap_signed_message("!!!not base64!!!"), None);
}

#[test]
fn bytes_that_are_no_utf8_fail() {
    let blob = base64::encode([0xffu8, 0xfe, 0xfd]);
    assert_eq!(unwrap_signed_message(&blob), None);
}

#[test]
fn fewer_than_three_fields_fail() {
    let blob = base64::encode("sig:only");
    assert_eq!(unwrap_signed_message(&blob), None);
}

#[test]
fn empty_fields_are_kept() {
    assert_eq!(
        parse_signed_parts("::"),
        Some((String::new(), String::new(), String::new()))
    );
}
