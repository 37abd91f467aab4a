//! Typed records of the ledger's paginated HTTP API, as the resolver reads
//! them.  The surrounding application parses the wire JSON into these plain
//! values; the resolver's logic over them is verified.

use vstd::prelude::*;

verus! {

/// An account snapshot: its id, sequence number and current balance lines.
#[derive(Debug, PartialEq)]
pub struct Account {
    pub account_id: String,
    pub sequence: String,
    pub balances: Vec<Balance>,
}

/// One balance line of an account.
#[derive(Debug, PartialEq)]
pub struct Balance {
    pub balance: String,
    pub asset_type: String,
    pub asset_code: String,
    pub asset_issuer: String,
    pub last_modified_ledger: u64,
}

/// One payment operation from an account's payment history.
#[derive(Debug, PartialEq)]
pub struct OperationPayment {
    pub id: String,
    pub source_account: String,
    pub created_at: String,
    pub transaction_hash: String,
    pub asset_type: String,
    pub asset_code: String,
    pub asset_issuer: String,
    pub from: String,
    pub to: String,
}

/// One operation from an issuer's history, read as a candidate
/// claimable-balance creation.  `claimants` holds the destination account ids
/// of the operation's claimant entries.
#[derive(Debug, PartialEq)]
pub struct OperationClaimableBalance {
    pub id: String,
    pub source_account: String,
    pub type_i: usize,
    pub created_at: String,
    pub transaction_hash: String,
    pub claimants: Vec<String>,
    pub asset: String,
}

/// One catalog entry: a badge definition from the issuer's descriptor file.
#[derive(Debug, PartialEq)]
pub struct TOMLCurrency {
    pub code: String,
    pub issuer: String,
    pub image: String,
    pub tag: String,
}

impl Clone for Balance {
    fn clone(&self) -> (res: Self)
        ensures
            res == *self,
    {
        Balance {
            balance: self.balance.clone(),
            asset_type: self.asset_type.clone(),
            asset_code: self.asset_code.clone(),
            asset_issuer: self.asset_issuer.clone(),
            last_modified_ledger: self.last_modified_ledger,
        }
    }
}

impl Clone for OperationPayment {
    fn clone(&self) -> (res: Self)
        ensures
            res == *self,
    {
        OperationPayment {
            id: self.id.clone(),
            source_account: self.source_account.clone(),
            created_at: self.created_at.clone(),
            transaction_hash: self.transaction_hash.clone(),
            asset_type: self.asset_type.clone(),
            asset_code: self.asset_code.clone(),
            asset_issuer: self.asset_issuer.clone(),
            from: self.from.clone(),
            to: self.to.clone(),
        }
    }
}

impl Clone for OperationClaimableBalance {
    fn clone(&self) -> (res: Self)
        ensures
            res.id == self.id,
            res.source_account == self.source_account,
            res.type_i == self.type_i,
            res.created_at == self.created_at,
            res.transaction_hash == self.transaction_hash,
            res.claimants@ == self.claimants@,
            res.asset == self.asset,
    {
        OperationClaimableBalance {
            id: self.id.clone(),
            source_account: self.source_account.clone(),
            type_i: self.type_i,
            created_at: self.created_at.clone(),
            transaction_hash: self.transaction_hash.clone(),
            claimants: clone_strings(&self.claimants),
            asset: self.asset.clone(),
        }
    }
}

impl Clone for TOMLCurrency {
    fn clone(&self) -> (res: Self)
        ensures
            res == *self,
    {
        TOMLCurrency {
            code: self.code.clone(),
            issuer: self.issuer.clone(),
            image: self.image.clone(),
            tag: self.tag.clone(),
        }
    }
}

/// Clones a vector of strings element by element.
fn clone_strings(v: &Vec<String>) -> (res: Vec<String>)
    ensures
        res@ == v@,
{
    let mut out: Vec<String> = Vec::new();
    let mut i: usize = 0;
    while i < v.len()
        invariant
            i <= v@.len(),
            out@ == v@.take(i as int),
        decreases v@.len() - i,
    {
        out.push(v[i].clone());
        i = i + 1;
        proof {
            assert(out@ =~= v@.take(i as int));
        }
    }
    proof {
        assert(v@.take(v@.len() as int) =~= v@);
    }
    out
}

} // verus!
