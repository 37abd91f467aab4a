use sqbadge::badge_check::{
    apply_claimable, asset_key, badge_claim_valid, check_badge, count_owned, filter_quest_codes,
    needs_balance_fallback, resolve_badges, search_claimable_page, series_prefix, Badge,
};
use sqbadge::stellar_data::{Balance, OperationClaimableBalance, OperationPayment, TOMLCurrency};

const ISSUER: &str = "GISSUER";

fn token(code: &str) -> TOMLCurrency {
    TOMLCurrency {
        code: code.to_string(),
        issuer: ISSUER.to_string(),
        image: String::new(),
        tag: String::new(),
    }
}

fn payment(code: &str, issuer: &str, from: &str, tx: &str) -> OperationPayment {
    OperationPayment {
        id: "1".to_string(),
        source_account: from.to_string(),
        created_at: "2021-06-01T00:00:00Z".to_string(),
        transaction_hash: tx.to_string(),
        asset_type: "credit_alphanum12".to_string(),
        asset_code: code.to_string(),
        asset_issuer: issuer.to_string(),
        from: from.to_string(),
        to: "GRECEIVER".to_string(),
    }
}

fn claimable(asset: &str, claimants: &[&str], type_i: usize, tx: &str) -> OperationClaimableBalance {
    OperationClaimableBalance {
        id: "2".to_string(),
        source_account: ISSUER.to_string(),
        type_i,
        created_at: "2021-07-01T00:00:00Z".to_string(),
        transaction_hash: tx.to_string(),
        claimants: claimants.iter().map(|c| c.to_string()).collect(),
        asset: asset.to_string(),
    }
}

#[test]
fn direct_payment_marks_the_badge_owned() {
    let b = check_badge(&token("SQ0101"), &vec![payment("SQ0101", ISSUER, ISSUER, "tx1")]);
    assert!(b.owned);
    assert_eq!(b.tx_hash, Some("tx1".to_string()));
    assert_eq!(b.date_accuired, Some("2021-06-01T00:00:00Z".to_string()));
}

#[test]
fn payment_not_sent_by_the_issuer_does_not_count() {
    let b = check_badge(&token("SQ0101"), &vec![payment("SQ0101", ISSUER, "GSOMEONE", "tx1")]);
    assert!(!b.owned);
    assert_eq!(b.tx_hash, None);
}

#[test]
fn payment_of_another_issuer_does_not_count() {
    let b = check_badge(&token("SQ0101"), &vec![payment("SQ0101", "GOTHER", "GOTHER", "tx1")]);
    assert!(!b.owned);
}

#[test]
fn first_matching_payment_wins() {
    let payments = vec![
        payment("SQ0101", ISSUER, ISSUER, "tx1"),
        payment("SQ0101", ISSUER, ISSUER, "tx2"),
    ];
    let b = check_badge(&token("SQ0101"), &payments);
    assert_eq!(b.tx_hash, Some("tx1".to_string()));
}

#[test]
fn resolve_keeps_catalog_order_and_length() {
    let catalog = vec![token("SQ0101"), token("SQ0102")];
    let payments = vec![payment("SQ0102", ISSUER, ISSUER, "tx9")];
    let r = resolve_badges(&catalog, &payments);
    assert_eq!(r.len(), 2);
    assert!(!r[0].owned);
    assert!(r[1].owned);
    assert_eq!(r[1].token.code, "SQ0102");
}

#[test]
fn mono_badges_are_marked_by_tag() {
    let mut t = token("SQ0101");
    t.tag = "mono".to_string();
    let b = Badge { token: t, tx_hash: None, owned: false, date_accuired: None };
    assert!(b.is_mono());
    let b2 = Badge { token: token("SQ0101"), tx_hash: None, owned: false, date_accuired: None };
    assert!(!b2.is_mono());
}

#[test]
fn balance_line_asks_for_the_fallback_search() {
    let b = Badge { token: token("SQ0101"), tx_hash: None, owned: false, date_accuired: None };
    let line = Balance {
        balance: "1.0".to_string(),
        asset_type: "credit_alphanum12".to_string(),
        asset_code: "SQ0101".to_string(),
        asset_issuer: ISSUER.to_string(),
        last_modified_ledger: 7,
    };
    assert!(needs_balance_fallback(&b, &vec![line]));
}

#[test]
fn owned_badge_needs_no_fallback() {
    let b = Badge { token: token("SQ0101"), tx_hash: None, owned: true, date_accuired: None };
    assert!(!needs_balance_fallback(&b, &vec![]));
}

#[test]
fn missing_balance_line_needs_no_fallback() {
    let b = Badge { token: token("SQ0101"), tx_hash: None, owned: false, date_accuired: None };
    let line = Balance {
        balance: "1.0".to_string(),
        asset_type: "native".to_string(),
        asset_code: String::new(),
        asset_issuer: String::new(),
        last_modified_ledger: 7,
    };
    assert!(!needs_balance_fallback(&b, &vec![line]));
}

#[test]
fn asset_key_joins_code_and_issuer() {
    assert_eq!(asset_key("SQ0101", ISSUER), "SQ0101:GISSUER");
}

#[test]
fn claimable_search_finds_the_matching_operation() {
    let ops = vec![
        claimable("SQ0101:GISSUER", &["GME"], 1, "tx1"),
        claimable("OTHER:GISSUER", &["GME"], 14, "tx2"),
        claimable("SQ0101:GISSUER", &["GYOU", "GME"], 14, "tx3"),
    ];
    let ix = search_claimable_page(&ops, "SQ0101:GISSUER", "GME");
    assert_eq!(ix, Some(2));
}

#[test]
fn claimable_search_needs_the_right_claimant() {
    let ops = vec![claimable("SQ0101:GISSUER", &["GYOU"], 14, "tx1")];
    assert_eq!(search_claimable_page(&ops, "SQ0101:GISSUER", "GME"), None);
}

#[test]
fn claimable_match_resolves_the_badge() {
    let b = Badge { token: token("SQ0101"), tx_hash: None, owned: false, date_accuired: None };
    let op = claimable("SQ0101:GISSUER", &["GME"], 14, "tx3");
    let r = apply_claimable(&b, &op);
    assert!(r.owned);
    assert_eq!(r.tx_hash, Some("tx3".to_string()));
    assert_eq!(r.date_accuired, Some("2021-07-01T00:00:00Z".to_string()));
    assert_eq!(r.token.code, "SQ0101");
}

#[test]
fn claim_of_an_unowned_badge_is_invalid() {
    let b = Badge { token: token("SQ0101"), tx_hash: None, owned: false, date_accuired: None };
    assert!(!badge_claim_valid(&b, &vec![token("SQ0101")]));
    assert!(badge_claim_valid(&b, &vec![token("SQ0102")]));
    let owned = Badge { token: token("SQ0101"), tx_hash: None, owned: true, date_accuired: None };
    assert!(badge_claim_valid(&owned, &vec![token("SQ0101")]));
}

#[test]
fn only_quest_codes_survive_the_catalog_filter() {
    let catalog = vec![token("SQ0101"), token("USDC"), token("SSQ02"), token("XLM")];
    let filtered = filter_quest_codes(&catalog);
    let codes: Vec<String> = filtered.iter().map(|b| b.code.clone()).collect();
    assert_eq!(codes, vec!["SQ0101", "SSQ02"]);
}

#[test]
fn series_headings_group_codes() {
    assert_eq!(series_prefix("SSQ01"), "SSQ");
    assert_eq!(series_prefix("SQ0101"), "SQ01");
    assert_eq!(series_prefix("SQ0205"), "SQ02");
    assert_eq!(series_prefix("XLM"), "XLM");
}

#[test]
fn owned_badges_are_counted() {
    let mk = |owned| Badge { token: token("SQ0101"), tx_hash: None, owned, date_accuired: None };
    assert_eq!(count_owned(&vec![mk(true), mk(false), mk(true)]), 2);
    assert_eq!(count_owned(&vec![]), 0);
}
