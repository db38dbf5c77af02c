//! Storage-cost accounting shared by the registry's entry points.
//!
//! Approval entries occupy persistent storage that their grantor pays for;
//! when entries are cleared the cost flows back.  These helpers compute the
//! byte counts and the resulting refund transfers, and check an attached
//! payment against a measured storage delta.

use vstd::prelude::*;
use crate::common::ContractError;
use crate::common::STORAGE_PRICE_PER_BYTE;
use crate::common::TransferAction;

verus! {

/// Bytes one approval entry for this account occupies: the account id's
/// bytes plus four 8-byte words of bookkeeping.
pub open spec fn spec_bytes_for_account(account: Seq<char>) -> int {
    account.len() as int + 32
}

/// Total bytes the approval entries `m` occupy.
pub open spec fn approval_bytes(m: Seq<(String, u64)>) -> int
    decreases m.len(),
{
    if m.len() == 0 {
        0
    } else {
        approval_bytes(m.drop_last()) + spec_bytes_for_account(m.last().0@)
    }
}

/// The total is the sum of each entry's bytes, so any prefix occupies at
/// most what the whole sequence occupies.
pub proof fn lemma_approval_bytes_nonneg(m: Seq<(String, u64)>)
    ensures
        approval_bytes(m) >= 0,
        m.len() > 0 ==> approval_bytes(m.drop_last()) <= approval_bytes(m),
    decreases m.len(),
{
    if m.len() > 0 {
        lemma_approval_bytes_nonneg(m.drop_last());
    }
}

/// Storage bytes one approval entry for `account_id` occupies.
pub fn bytes_for_approved_account_id(account_id: &String) -> (r: u64)
    requires
        account_id@.len() + 32 <= u64::MAX,
    ensures
        r == spec_bytes_for_account(account_id@),
{
    let len = account_id.as_str().unicode_len();
    (len as u64) + 32
}

/// The refund owed to `sender_id` when the approval entries `m` are
/// cleared: their storage bytes at the per-byte price.
pub open spec fn spec_refund_amount(m: Seq<(String, u64)>) -> int {
    approval_bytes(m) * STORAGE_PRICE_PER_BYTE
}

/// The transfer refunding `sender_id` the storage cost of the cleared
/// approval entries in `approved_account_ids`.
pub fn refund_approved_account_ids(
    sender_id: String,
    approved_account_ids: &Vec<(String, u64)>,
) -> (r: TransferAction)
    requires
        approval_bytes(approved_account_ids@) <= u64::MAX,
    ensures
        r.receiver_id == sender_id,
        r.amount == spec_refund_amount(approved_account_ids@),
{
    let n = approved_account_ids.len();
    let mut total: u64 = 0;
    let mut i: usize = 0;
    while i < n
        invariant
            i <= n,
            n == approved_account_ids@.len(),
            approval_bytes(approved_account_ids@) <= u64::MAX,
            total == approval_bytes(approved_account_ids@.subrange(0, i as int)),
        decreases n - i,
    {
        proof {
            assert(approved_account_ids@.subrange(0, i + 1 as int).drop_last()
                =~= approved_account_ids@.subrange(0, i as int));
            lemma_prefix_bytes_bounded(approved_account_ids@, i + 1 as int);
        }
        let b = bytes_for_approved_account_id(&approved_account_ids[i].0);
        total = total + b;
        i += 1;
    }
    proof {
        assert(approved_account_ids@.subrange(0, n as int) =~= approved_account_ids@);
        assert(total * STORAGE_PRICE_PER_BYTE <= u64::MAX * STORAGE_PRICE_PER_BYTE) by (nonlinear_arith)
            requires
                total <= u64::MAX,
                0 < STORAGE_PRICE_PER_BYTE,
        ;
    }
    TransferAction { receiver_id: sender_id, amount: (total as u128) * STORAGE_PRICE_PER_BYTE }
}

/// Every prefix of an entry sequence occupies at most the whole.
pub proof fn lemma_prefix_bytes_bounded(m: Seq<(String, u64)>, i: int)
    requires
        0 <= i <= m.len(),
    ensures
        approval_bytes(m.subrange(0, i)) <= approval_bytes(m),
        approval_bytes(m.subrange(0, i)) >= 0,
    decreases m.len() - i,
{
    lemma_approval_bytes_nonneg(m.subrange(0, i));
    if i < m.len() {
        lemma_prefix_bytes_bounded(m, i + 1);
        assert(m.subrange(0, i + 1).drop_last() =~= m.subrange(0, i));
        lemma_approval_bytes_nonneg(m.subrange(0, i + 1));
    } else {
        assert(m.subrange(0, i) =~= m);
    }
}

/// Checks an attached payment against a measured storage delta: rejects the
/// call when the payment does not cover the delta's cost, and refunds the
/// excess to the caller when more than one yocto-unit is left over.
pub fn refund_deposit(
    storage_used: u64,
    attached_deposit: u128,
    predecessor_id: &String,
) -> (r: Result<Option<TransferAction>, ContractError>)
    ensures
        r is Ok <==> attached_deposit >= storage_used * STORAGE_PRICE_PER_BYTE,
        match r {
            Ok(refund) => {
                let excess = attached_deposit - storage_used * STORAGE_PRICE_PER_BYTE;
                if excess > 1 {
                    refund matches Some(a) && a.receiver_id == *predecessor_id && a.amount == excess
                } else {
                    refund is None
                }
            },
            Err(e) => e == ContractError::InsufficientFunds,
        },
{
    proof {
        assert((storage_used as u128) * STORAGE_PRICE_PER_BYTE <= u64::MAX
            * STORAGE_PRICE_PER_BYTE) by (nonlinear_arith)
            requires
                storage_used <= u64::MAX,
                0 < STORAGE_PRICE_PER_BYTE,
        ;
    }
    let required_cost: u128 = (storage_used as u128) * STORAGE_PRICE_PER_BYTE;
    if attached_deposit < required_cost {
        return Err(ContractError::InsufficientFunds);
    }
    let refund_amount = attached_deposit - required_cost;
    if refund_amount > 1 {
        Ok(Some(TransferAction { receiver_id: predecessor_id.clone(), amount: refund_amount }))
    } else {
        Ok(None)
    }
}

/// The payout owed to one royalty holder: its share of `amount_to_pay`,
/// with the share given in basis points of one ten-thousandth.
pub fn royalty_to_payout(royalty_percentage: u32, amount_to_pay: u128) -> (r: u128)
    requires
        royalty_percentage * amount_to_pay <= u128::MAX,
    ensures
        r == royalty_percentage * amount_to_pay / 10_000,
{
    (royalty_percentage as u128) * amount_to_pay / 10_000
}

} // verus!
