//! The ownership resolver: which badges of a catalog an account holds,
//! judged from its payment history, its balance lines, and — for badges
//! acquired without a direct payment — the issuer's claimable-balance
//! operations.  All decisions are pure; the surrounding application fetches
//! the pages and drives the claimable-balance search with [`page_step`]
//! (see [`crate::pagination`]).

use crate::proof_encoding::has_code;
use crate::stellar_data::{Balance, OperationClaimableBalance, OperationPayment, TOMLCurrency};
use crate::text::{is_prefix_of, str_eq};
use vstd::prelude::*;

verus! {

/// One catalog entry together with what the resolver found out about it.
#[derive(Debug, PartialEq)]
pub struct Badge {
    pub token: TOMLCurrency,
    pub tx_hash: Option<String>,
    pub owned: bool,
    pub date_accuired: Option<String>,
}

impl Clone for Badge {
    fn clone(&self) -> (res: Self)
        ensures
            res == *self,
    {
        Badge {
            token: self.token.clone(),
            tx_hash: match &self.tx_hash {
                Some(h) => Some(h.clone()),
                None => None,
            },
            owned: self.owned,
            date_accuired: match &self.date_accuired {
                Some(d) => Some(d.clone()),
                None => None,
            },
        }
    }
}

impl Badge {
    /// Whether the badge is a monochrome variant, marked by its tag.
    pub fn is_mono(&self) -> (r: bool)
        ensures
            r == (self.token.tag@ == "mono"@),
    {
        str_eq(self.token.tag.as_str(), "mono")
    }
}

/// Whether a payment hands this badge out: a 12-character credit asset,
/// sent by its own issuer, with the badge's issuer and code.
pub open spec fn payment_matches(p: OperationPayment, t: TOMLCurrency) -> bool {
    &&& p.asset_type@ == "credit_alphanum12"@
    &&& p.asset_issuer@ == p.from@
    &&& p.asset_issuer@ == t.issuer@
    &&& p.asset_code@ == t.code@
}

/// The first payment of the history that hands the badge out.
pub open spec fn find_payment(ps: Seq<OperationPayment>, t: TOMLCurrency) -> Option<
    OperationPayment,
>
    decreases ps.len(),
{
    if ps.len() == 0 {
        None
    } else if payment_matches(ps[0], t) {
        Some(ps[0])
    } else {
        find_payment(ps.drop_first(), t)
    }
}

/// The ownership record of one catalog entry, given the payment that hands
/// it out, if any.
pub open spec fn badge_of(t: TOMLCurrency, found: Option<OperationPayment>) -> Badge {
    match found {
        None => Badge { token: t, tx_hash: None, owned: false, date_accuired: None },
        Some(p) => Badge {
            token: t,
            tx_hash: Some(p.transaction_hash),
            owned: true,
            date_accuired: Some(p.created_at),
        },
    }
}

/// Tests whether `p` hands the badge `t` out.
fn payment_matches_exec(p: &OperationPayment, t: &TOMLCurrency) -> (r: bool)
    ensures
        r == payment_matches(*p, *t),
{
    str_eq(p.asset_type.as_str(), "credit_alphanum12") && str_eq(
        p.asset_issuer.as_str(),
        p.from.as_str(),
    ) && str_eq(p.asset_issuer.as_str(), t.issuer.as_str()) && str_eq(
        p.asset_code.as_str(),
        t.code.as_str(),
    )
}

/// Resolves one catalog entry against the payment history: owned exactly
/// when some payment hands it out, with hash and date from the first such
/// payment.
pub fn check_badge(token: &TOMLCurrency, payments: &Vec<OperationPayment>) -> (b: Badge)
    ensures
        b == badge_of(*token, find_payment(payments@, *token)),
{
    let mut i: usize = 0;
    proof {
        assert(payments@.skip(0) =~= payments@);
    }
    while i < payments.len()
        invariant
            i <= payments@.len(),
            find_payment(payments@, *token) == find_payment(payments@.skip(i as int), *token),
        decreases payments@.len() - i,
    {
        let ghost rest = payments@.skip(i as int);
        proof {
            assert(rest[0] == payments@[i as int]);
            assert(rest.drop_first() =~= payments@.skip(i + 1 as int));
        }
        if payment_matches_exec(&payments[i], token) {
            return Badge {
                token: token.clone(),
                tx_hash: Some(payments[i].transaction_hash.clone()),
                owned: true,
                date_accuired: Some(payments[i].created_at.clone()),
            };
        }
        i = i + 1;
    }
    proof {
        assert(payments@.skip(payments@.len() as int) =~= Seq::<OperationPayment>::empty());
    }
    Badge { token: token.clone(), tx_hash: None, owned: false, date_accuired: None }
}

/// Resolves every catalog entry against the payment history, in catalog
/// order.  The payment history is scanned once per entry but fetched once.
pub fn resolve_badges(catalog: &Vec<TOMLCurrency>, payments: &Vec<OperationPayment>) -> (r: Vec<
    Badge,
>)
    ensures
        r@.len() == catalog@.len(),
        forall|i: int|
            0 <= i < catalog@.len() ==> r@[i] == badge_of(
                catalog@[i],
                find_payment(payments@, #[trigger] catalog@[i]),
            ),
{
    let mut out: Vec<Badge> = Vec::new();
    let mut i: usize = 0;
    while i < catalog.len()
        invariant
            i <= catalog@.len(),
            out@.len() == i,
            forall|j: int|
                0 <= j < i ==> out@[j] == badge_of(
                    catalog@[j],
                    find_payment(payments@, #[trigger] catalog@[j]),
                ),
        decreases catalog@.len() - i,
    {
        out.push(check_badge(&catalog[i], payments));
        i = i + 1;
    }
    out
}

/// Whether a balance line carries this badge's asset.
pub open spec fn balance_matches(bal: Balance, t: TOMLCurrency) -> bool {
    &&& bal.asset_type@ == "credit_alphanum12"@
    &&& bal.asset_code@ == t.code@
    &&& bal.asset_issuer@ == t.issuer@
}

/// Whether a badge that no payment handed out still sits in the account's
/// balances, so that the claimable-balance search should run for it.
pub fn needs_balance_fallback(b: &Badge, balances: &Vec<Balance>) -> (r: bool)
    ensures
        r == (!b.owned && exists|j: int|
            0 <= j < balances@.len() && balance_matches(#[trigger] balances@[j], b.token)),
{
    if b.owned {
        return false;
    }
    let mut j: usize = 0;
    while j < balances.len()
        invariant
            !b.owned,
            j <= balances@.len(),
            forall|k: int| 0 <= k < j ==> !balance_matches(#[trigger] balances@[k], b.token),
        decreases balances@.len() - j,
    {
        let bal = &balances[j];
        if str_eq(bal.asset_type.as_str(), "credit_alphanum12") && str_eq(
            bal.asset_code.as_str(),
            b.token.code.as_str(),
        ) && str_eq(bal.asset_issuer.as_str(), b.token.issuer.as_str()) {
            proof {
                assert(balance_matches(balances@[j as int], b.token));
            }
            return true;
        }
        j = j + 1;
    }
    false
}

/// The asset key of a badge, as the claimable-balance search names assets:
/// code and issuer joined by a colon.
pub fn asset_key(code: &str, issuer: &str) -> (r: String)
    ensures
        r@ == code@ + seq![':'] + issuer@,
{
    let mut out = String::from_str(code);
    crate::text::push_char(&mut out, ':');
    out.append(issuer);
    proof {
        assert(out@ =~= code@ + seq![':'] + issuer@);
    }
    out
}

/// Whether an operation is the creation of a claimable balance of the given
/// asset that `claimant` may claim.  Operation type 14 is the ledger's
/// claimable-balance creation.
pub open spec fn claimable_matches(
    op: OperationClaimableBalance,
    asset: Seq<char>,
    claimant: Seq<char>,
) -> bool {
    &&& op.type_i == 14
    &&& op.asset@ == asset
    &&& exists|j: int| 0 <= j < op.claimants@.len() && (#[trigger] op.claimants@[j])@ == claimant
}

/// Tests whether `op` is a claimable-balance creation of `asset` for
/// `claimant`.
fn claimable_matches_exec(op: &OperationClaimableBalance, asset: &str, claimant: &str) -> (r: bool)
    ensures
        r == claimable_matches(*op, asset@, claimant@),
{
    if op.type_i != 14 {
        return false;
    }
    if !str_eq(op.asset.as_str(), asset) {
        return false;
    }
    let mut j: usize = 0;
    while j < op.claimants.len()
        invariant
            op.type_i == 14,
            op.asset@ == asset@,
            j <= op.claimants@.len(),
            forall|k: int| 0 <= k < j ==> (#[trigger] op.claimants@[k])@ != claimant@,
        decreases op.claimants@.len() - j,
    {
        if str_eq(op.claimants[j].as_str(), claimant) {
            proof {
                assert((op.claimants@[j as int])@ == claimant@);
            }
            return true;
        }
        j = j + 1;
    }
    false
}

/// Searches one page of the issuer's operations for the first
/// claimable-balance creation of `asset` aimed at `claimant`; the position
/// of the first match, or nothing.
pub fn search_claimable_page(
    ops: &Vec<OperationClaimableBalance>,
    asset: &str,
    claimant: &str,
) -> (r: Option<usize>)
    ensures
        match r {
            Some(ix) => ix < ops@.len() && claimable_matches(ops@[ix as int], asset@, claimant@)
                && (forall|k: int|
                0 <= k < ix ==> !claimable_matches(#[trigger] ops@[k], asset@, claimant@)),
            None => forall|k: int|
                0 <= k < ops@.len() ==> !claimable_matches(#[trigger] ops@[k], asset@, claimant@),
        },
{
    let mut i: usize = 0;
    while i < ops.len()
        invariant
            i <= ops@.len(),
            forall|k: int| 0 <= k < i ==> !claimable_matches(#[trigger] ops@[k], asset@, claimant@),
        decreases ops@.len() - i,
    {
        if claimable_matches_exec(&ops[i], asset, claimant) {
            return Some(i);
        }
        i = i + 1;
    }
    None
}

/// Marks a badge as owned through a claimable balance, taking hash and date
/// from the operation that created it.
pub fn apply_claimable(b: &Badge, op: &OperationClaimableBalance) -> (r: Badge)
    ensures
        r.token == b.token,
        r.owned,
        r.tx_hash == Some(op.transaction_hash),
        r.date_accuired == Some(op.created_at),
{
    Badge {
        token: b.token.clone(),
        tx_hash: Some(op.transaction_hash.clone()),
        owned: true,
        date_accuired: Some(op.created_at.clone()),
    }
}

/// Whether a resolved badge bears out a claim: a claim is broken only where
/// the claimed set names the badge's code and the account does not own it.
pub fn badge_claim_valid(b: &Badge, claimed: &Vec<TOMLCurrency>) -> (r: bool)
    ensures
        r == !(has_code(claimed@, b.token.code@) && !b.owned),
{
    if b.owned {
        return true;
    }
    let mut j: usize = 0;
    while j < claimed.len()
        invariant
            !b.owned,
            j <= claimed@.len(),
            forall|k: int| 0 <= k < j ==> (#[trigger] claimed@[k]).code@ != b.token.code@,
        decreases claimed@.len() - j,
    {
        if str_eq(claimed[j].code.as_str(), b.token.code.as_str()) {
            proof {
                assert((claimed@[j as int]).code@ == b.token.code@);
                assert(has_code(claimed@, b.token.code@));
            }
            return false;
        }
        j = j + 1;
    }
    true
}

/// The series heading of a code, as badge lists group them: the first three
/// characters of a special (`SSQ`) code, else the first four, or the whole
/// code where it is shorter.
pub fn series_prefix(code: &str) -> (r: String)
    ensures
        is_prefix_of("SSQ"@, code@) ==> r@ == code@.take(3),
        !is_prefix_of("SSQ"@, code@) && code@.len() >= 4 ==> r@ == code@.take(4),
        !is_prefix_of("SSQ"@, code@) && code@.len() < 4 ==> r@ == code@,
{
    if crate::text::has_prefix(code, "SSQ") {
        proof {
            reveal_strlit("SSQ");
        }
        let head = code.substring_char(0, 3);
        proof {
            assert(head@ =~= code@.take(3));
        }
        head.to_owned()
    } else {
        let n = code.unicode_len();
        if n >= 4 {
            let head = code.substring_char(0, 4);
            proof {
                assert(head@ =~= code@.take(4));
            }
            head.to_owned()
        } else {
            code.to_owned()
        }
    }
}

/// How many of the resolved badges are owned.
pub fn count_owned(badges: &Vec<Badge>) -> (r: usize)
    ensures
        r == badges@.filter(|b: Badge| b.owned).len(),
{
    let mut count: usize = 0;
    let mut i: usize = 0;
    while i < badges.len()
        invariant
            i <= badges@.len(),
            count <= i,
            count == badges@.take(i as int).filter(|b: Badge| b.owned).len(),
        decreases badges@.len() - i,
    {
        let ghost prefix1 = badges@.take(i + 1 as int);
        proof {
            assert(prefix1.drop_last() =~= badges@.take(i as int));
            assert(prefix1.last() == badges@[i as int]);
            reveal(Seq::filter);
        }
        if badges[i].owned {
            count = count + 1;
        }
        i = i + 1;
    }
    proof {
        assert(badges@.take(badges@.len() as int) =~= badges@);
    }
    count
}

/// Keeps the catalog entries whose code names a quest badge: those starting
/// with `SQ` or `SSQ`.  The catalog descriptor may list other assets.
pub fn filter_quest_codes(catalog: &Vec<TOMLCurrency>) -> (r: Vec<TOMLCurrency>)
    ensures
        r@ == catalog@.filter(
            |b: TOMLCurrency| is_prefix_of("SQ"@, b.code@) || is_prefix_of("SSQ"@, b.code@),
        ),
{
    let ghost pred = |b: TOMLCurrency| is_prefix_of("SQ"@, b.code@) || is_prefix_of("SSQ"@, b.code@);
    let mut out: Vec<TOMLCurrency> = Vec::new();
    let mut i: usize = 0;
    while i < catalog.len()
        invariant
            i <= catalog@.len(),
            out@ == catalog@.take(i as int).filter(
                |b: TOMLCurrency| is_prefix_of("SQ"@, b.code@) || is_prefix_of("SSQ"@, b.code@),
            ),
        decreases catalog@.len() - i,
    {
        let ghost prefix1 = catalog@.take(i + 1 as int);
        let keep = crate::text::has_prefix(catalog[i].code.as_str(), "SQ") || crate::text::has_prefix(
            catalog[i].code.as_str(),
            "SSQ",
        );
        proof {
            assert(prefix1.drop_last() =~= catalog@.take(i as int));
            assert(prefix1.last() == catalog@[i as int]);
            reveal(Seq::filter);
        }
        if keep {
            out.push(catalog[i].clone());
        }
        proof {
            assert(out@ =~= prefix1.filter(
                |b: TOMLCurrency| is_prefix_of("SQ"@, b.code@) || is_prefix_of("SSQ"@, b.code@),
            ));
        }
        i = i + 1;
    }
    proof {
        assert(catalog@.take(catalog@.len() as int) =~= catalog@);
    }
    out
}

} // verus!
