use sqbadge::error::StellarErr;
use sqbadge::pagination::{check_url_decodable, page_step, status_error, PageStep};

#[test]
fn last_page_without_next_ends_normally() {
    let r = page_step(false, &None, &None);
    assert_eq!(r, PageStep::Finished);
}

#[test]
fn status_404_without_next_is_account_not_found() {
    let r = page_step(true, &None, &Some(404));
    assert_eq!(r, PageStep::Failed(StellarErr::AccountNotFound));
}

#[test]
fn status_400_without_next_is_invalid_public_key() {
    let r = page_step(true, &None, &Some(400));
    assert_eq!(r, PageStep::Failed(StellarErr::InvalidPublicKey));
}

#[test]
fn other_status_without_next_is_unknown() {
    let r = page_step(true, &None, &Some(500));
    assert_eq!(r, PageStep::Failed(StellarErr::Unknown));
}

#[test]
fn empty_page_with_next_ends_normally() {
    let next = Some("https://horizon.test/next".to_string());
    assert_eq!(page_step(true, &next, &None), PageStep::Finished);
}

#[test]
fn non_empty_page_follows_the_decoded_next_link() {
    let next = Some("https%3A%2F%2Fhorizon.test%2Fpage2".to_string());
    let r = page_step(false, &next, &None);
    assert_eq!(r, PageStep::Next("https://horizon.test/page2".to_string()));
}

#[test]
fn plain_next_link_is_followed_as_is() {
    let next = Some("https://horizon.test/page2?cursor=7".to_string());
    let r = page_step(false, &next, &None);
    assert_eq!(r, PageStep::Next("https://horizon.test/page2?cursor=7".to_string()));
}

#[test]
fn undecodable_next_link_is_unknown_failure() {
    let next = Some("https://horizon.test/%zz".to_string());
    assert_eq!(page_step(false, &next, &None), PageStep::Failed(StellarErr::Unknown));
}

#[test]
fn decodability_check() {
    assert!(check_url_decodable("a%2Fb"));
    assert!(check_url_decodable("plain"));
    assert!(!check_url_decodable("tail%2"));
    assert!(!check_url_decodable("bad%zz"));
    assert!(!check_url_decodable("caf\u{e9}"));
}

#[test]
fn status_codes_map_to_errors() {
    assert_eq!(status_error(400), StellarErr::InvalidPublicKey);
    assert_eq!(status_error(404), StellarErr::AccountNotFound);
    assert_eq!(status_error(503), StellarErr::Unknown);
}
