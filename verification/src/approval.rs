//! Granting, checking, and revoking transfer approvals.
//!
//! An approval lets a non-owner account transfer a specific token on the
//! owner's behalf.  Each grant is tagged with the token's next-approval
//! counter, which only ever grows: an id, once granted, is never granted
//! again, and a stale id can never pass the exact-match check.  The
//! lifecycle predicates at the top describe every way an approval map can
//! change; the entry points tie their effects to those predicates, and the
//! closing lemmas prove the monotonicity law from them.

use vstd::prelude::*;
use crate::common::ContractError;
use crate::common::STORAGE_PRICE_PER_BYTE;
use crate::common::TransferAction;
use crate::metadata::Token;
use crate::nft_contract::Contract;
use crate::str_map::StrMap;
use crate::utils::bytes_for_approved_account_id;
use crate::utils::refund_approved_account_ids;
use crate::utils::refund_deposit;
use crate::utils::approval_bytes;
use crate::utils::spec_bytes_for_account;
use crate::utils::spec_refund_amount;

verus! {

/// `t1` is `t0` after granting `a` an approval: `a` is bound to the current
/// counter value and the counter moves past it.
pub open spec fn grants(t0: Token, t1: Token, a: Seq<char>) -> bool {
    &&& t1.approved_account_ids@ == t0.approved_account_ids@.insert(a, t0.next_approval_id)
    &&& t1.next_approval_id == t0.next_approval_id + 1
}

/// `t1` is `t0` after revoking `a`'s approval, if it had one.  The counter
/// does not move backwards.
pub open spec fn revokes(t0: Token, t1: Token, a: Seq<char>) -> bool {
    &&& t1.approved_account_ids@ == t0.approved_account_ids@.remove(a)
    &&& t1.next_approval_id == t0.next_approval_id
}

/// `t1` is `t0` after clearing the whole approval map (a full revocation,
/// or the anti-replay clearing a transfer performs).
pub open spec fn clears(t0: Token, t1: Token) -> bool {
    &&& t1.approved_account_ids@ == Map::<Seq<char>, u64>::empty()
    &&& t1.next_approval_id == t0.next_approval_id
}

/// Every way this library changes a token's approval state.
pub open spec fn lifecycle_step(t0: Token, t1: Token) -> bool {
    ||| exists|a: Seq<char>| grants(t0, t1, a)
    ||| exists|a: Seq<char>| revokes(t0, t1, a)
    ||| clears(t0, t1)
}

/// The asynchronous notification scheduled when an approval carries a
/// message: the grantee's hook is invoked with the grant's facts.
#[derive(Debug)]
pub struct OnApproveCall {
    /// The approved account, whose hook will run.
    pub receiver_id: String,
    pub token_id: String,
    pub owner_id: String,
    pub approval_id: u64,
    pub msg: String,
}

/// What an approval performs besides the state change: an optional excess
/// refund, and an optional scheduled notification.
#[derive(Debug)]
pub struct ApproveOutcome {
    pub refund: Option<TransferAction>,
    pub notification: Option<OnApproveCall>,
}

/// The approval surface of the registry.
pub trait NonFungibleTokenApproval {
    fn nft_approve(
        &mut self,
        token_id: String,
        account_id: String,
        msg: Option<String>,
        predecessor_id: &String,
        attached_deposit: u128,
    ) -> Result<ApproveOutcome, ContractError>;

    fn nft_is_approved(
        &self,
        token_id: String,
        approved_account_id: String,
        approval_id: Option<u64>,
    ) -> Result<bool, ContractError>;

    fn nft_revoke(
        &mut self,
        token_id: String,
        account_id: String,
        predecessor_id: &String,
        attached_deposit: u128,
    ) -> Result<Option<TransferAction>, ContractError>;

    fn nft_revoke_all(
        &mut self,
        token_id: String,
        predecessor_id: &String,
        attached_deposit: u128,
    ) -> Result<Option<TransferAction>, ContractError>;
}

/// The hook a grantee implements to be notified of an approval; invoked by
/// the registry through the host, not locally.
pub trait NonFungibleTokenApprovalReceiver {
    fn nft_on_approve(
        &mut self,
        token_id: String,
        owner_id: String,
        approval_id: u64,
        msg: String,
    );
}

impl Contract {
    /// Grants `account_id` the right to transfer `token_id`, under a fresh
    /// approval id drawn from the token's counter.  Owner-only; requires at
    /// least one yocto-unit attached, and payment covering the storage of a
    /// newly created entry, refunding any excess.  When a message is
    /// supplied, the grantee's notification hook is scheduled with the
    /// grant's facts; the approval persists whether or not that
    /// notification later succeeds.  A rejected call leaves the registry
    /// untouched.
    pub fn nft_approve(
        &mut self,
        token_id: String,
        account_id: String,
        msg: Option<String>,
        predecessor_id: &String,
        attached_deposit: u128,
    ) -> (r: Result<ApproveOutcome, ContractError>)
        requires
            old(self).wf(),
            account_id@.len() + 32 <= u64::MAX,
            old(self).tokens_by_id@.dom().contains(token_id@) ==> old(self).tokens_by_id@[token_id@].next_approval_id < u64::MAX,
        ensures
            final(self).wf(),
            r is Ok <==> (attached_deposit >= 1 && old(self).tokens_by_id@.dom().contains(
                token_id@,
            ) && old(self).tokens_by_id@[token_id@].owner_id@ == predecessor_id@
                && attached_deposit >= spec_approve_cost(
                old(self).tokens_by_id@[token_id@],
                account_id@,
            )),
            match r {
                Ok(out) => {
                    let t0 = old(self).tokens_by_id@[token_id@];
                    let t1 = final(self).tokens_by_id@[token_id@];
                    let cost = spec_approve_cost(t0, account_id@);
                    let excess = attached_deposit - cost;
                    &&& grants(t0, t1, account_id@)
                    &&& t1.owner_id == t0.owner_id
                    &&& final(self).tokens_by_id@.dom() == old(self).tokens_by_id@.dom()
                    &&& forall|t: Seq<char>|
                        t != token_id@ && old(self).tokens_by_id@.dom().contains(t) ==> final(self).tokens_by_id@[t] == (#[trigger] old(self).tokens_by_id@[t])
                    &&& final(self).tokens_per_owner == old(self).tokens_per_owner
                    &&& final(self).token_metadata_by_id == old(self).token_metadata_by_id
                    &&& (if excess > 1 {
                        out.refund matches Some(a) && a.receiver_id == *predecessor_id && a.amount
                            == excess
                    } else {
                        out.refund is None
                    })
                    &&& match msg {
                        Some(m) => out.notification matches Some(c) && c.receiver_id == account_id
                            && c.token_id == token_id && c.owner_id == t0.owner_id && c.approval_id
                            == t0.next_approval_id && c.msg == m,
                        None => out.notification is None,
                    }
                },
                Err(e) => *final(self) == *old(self) && (if attached_deposit < 1 {
                    e == ContractError::InsufficientFunds
                } else if !old(self).tokens_by_id@.dom().contains(token_id@) {
                    e == ContractError::NotFound
                } else if old(self).tokens_by_id@[token_id@].owner_id@ != predecessor_id@ {
                    e == ContractError::Authorization
                } else {
                    e == ContractError::InsufficientFunds
                }),
            },
            final(self).owner_id == old(self).owner_id,
            final(self).metadata == old(self).metadata,
    {
        if attached_deposit < 1 {
            return Err(ContractError::InsufficientFunds);
        }
        let is_new_approval: bool;
        match self.tokens_by_id.get(&token_id) {
            Some(token) => {
                if !(*predecessor_id == token.owner_id) {
                    return Err(ContractError::Authorization);
                }
                is_new_approval = !token.approved_account_ids.contains_key(&account_id);
            },
            None => {
                return Err(ContractError::NotFound);
            },
        }
        let storage_used: u64 = if is_new_approval {
            bytes_for_approved_account_id(&account_id)
        } else {
            0
        };
        let refund = match refund_deposit(storage_used, attached_deposit, predecessor_id) {
            Ok(x) => x,
            Err(e) => {
                return Err(e);
            },
        };
        let mut token: Token = match self.tokens_by_id.remove(&token_id) {
            Some(t) => t,
            None => {
                proof {
                    assert(false);
                }
                Token {
                    owner_id: String::new(),
                    approved_account_ids: StrMap::new(),
                    next_approval_id: 0,
                }
            },
        };
        let approval_id: u64 = token.next_approval_id;
        let owner_id_copy = token.owner_id.clone();
        token.approved_account_ids.insert(account_id.clone(), approval_id);
        token.next_approval_id = approval_id + 1;
        self.tokens_by_id.insert(token_id.clone(), token);
        proof {
            let s0 = *old(self);
            let t0 = s0.tokens_by_id@[token_id@];
            let t1 = self.tokens_by_id@[token_id@];
            assert(self.tokens_by_id@ =~= s0.tokens_by_id@.insert(token_id@, t1));
            assert(self.tokens_by_id@.dom() =~= s0.tokens_by_id@.dom());
            assert(t1.approved_account_ids@ =~= t0.approved_account_ids@.insert(
                account_id@,
                t0.next_approval_id,
            ));
            assert forall|t: Seq<char>| #[trigger] self.tokens_by_id@.dom().contains(t) implies {
                &&& self.tokens_by_id@[t].wf()
                &&& self.tokens_per_owner@.dom().contains(self.tokens_by_id@[t].owner_id@)
                &&& self.tokens_per_owner@[self.tokens_by_id@[t].owner_id@]@.contains(t)
            } by {
                if t == token_id@ {
                    assert(t1.owner_id@ == t0.owner_id@);
                    assert forall|b: Seq<char>|
                        #[trigger] t1.approved_account_ids@.dom().contains(b) implies
                        t1.approved_account_ids@[b] < t1.next_approval_id by {
                        if b != account_id@ {
                            assert(t0.approved_account_ids@.dom().contains(b));
                        }
                    }
                } else {
                    assert(self.tokens_by_id@[t] == s0.tokens_by_id@[t]);
                }
            }
            assert forall|o: Seq<char>, t: Seq<char>|
                self.tokens_per_owner@.dom().contains(o)
                    && #[trigger] self.tokens_per_owner@[o]@.contains(t) implies {
                &&& self.tokens_by_id@.dom().contains(t)
                &&& self.tokens_by_id@[t].owner_id@ == o
            } by {
                assert(s0.tokens_by_id@[t].owner_id@ == o);
                if t == token_id@ {
                    assert(t1.owner_id@ == t0.owner_id@);
                } else {
                    assert(self.tokens_by_id@[t] == s0.tokens_by_id@[t]);
                }
            }
        }
        let notification: Option<OnApproveCall> = match msg {
            Some(m) => Some(
                OnApproveCall {
                    receiver_id: account_id,
                    token_id,
                    owner_id: owner_id_copy,
                    approval_id,
                    msg: m,
                },
            ),
            None => None,
        };
        Ok(ApproveOutcome { refund, notification })
    }

    /// Whether `approved_account_id` currently holds an approval on
    /// `token_id`; when an approval id is supplied it must match the stored
    /// one exactly, which is what makes a revoked-and-regranted approval's
    /// old id unusable.
    pub fn nft_is_approved(
        &self,
        token_id: String,
        approved_account_id: String,
        approval_id: Option<u64>,
    ) -> (r: Result<bool, ContractError>)
        requires
            self.wf(),
        ensures
            r is Ok <==> self.tokens_by_id@.dom().contains(token_id@),
            match r {
                Ok(b) => {
                    let am = self.tokens_by_id@[token_id@].approved_account_ids@;
                    b == (am.dom().contains(approved_account_id@) && match approval_id {
                        Some(id) => am[approved_account_id@] == id,
                        None => true,
                    })
                },
                Err(e) => e == ContractError::NotFound,
            },
    {
        match self.tokens_by_id.get(&token_id) {
            Some(token) => {
                match token.approved_account_ids.get(&approved_account_id) {
                    Some(actual) => match approval_id {
                        Some(enforced) => Ok(*actual == enforced),
                        None => Ok(true),
                    },
                    None => Ok(false),
                }
            },
            None => Err(ContractError::NotFound),
        }
    }

    /// Revokes `account_id`'s approval on `token_id`, refunding the owner
    /// the storage its entry occupied.  Owner-only; requires exactly one
    /// yocto-unit attached.  Revoking an absent approval changes nothing
    /// and schedules no refund.  A rejected call leaves the registry
    /// untouched.
    pub fn nft_revoke(
        &mut self,
        token_id: String,
        account_id: String,
        predecessor_id: &String,
        attached_deposit: u128,
    ) -> (r: Result<Option<TransferAction>, ContractError>)
        requires
            old(self).wf(),
            account_id@.len() + 32 <= u64::MAX,
        ensures
            final(self).wf(),
            r is Ok <==> (attached_deposit == 1 && old(self).tokens_by_id@.dom().contains(
                token_id@,
            ) && old(self).tokens_by_id@[token_id@].owner_id@ == predecessor_id@),
            match r {
                Ok(refund) => {
                    let t0 = old(self).tokens_by_id@[token_id@];
                    let t1 = final(self).tokens_by_id@[token_id@];
                    if t0.approved_account_ids@.dom().contains(account_id@) {
                        &&& revokes(t0, t1, account_id@)
                        &&& t1.owner_id == t0.owner_id
                        &&& final(self).tokens_by_id@.dom() == old(self).tokens_by_id@.dom()
                        &&& forall|t: Seq<char>|
                            t != token_id@ && old(self).tokens_by_id@.dom().contains(t) ==> final(self).tokens_by_id@[t] == (#[trigger] old(self).tokens_by_id@[t])
                        &&& final(self).tokens_per_owner == old(self).tokens_per_owner
                        &&& final(self).token_metadata_by_id == old(self).token_metadata_by_id
                        &&& refund matches Some(a) && a.receiver_id == *predecessor_id && a.amount
                            == spec_bytes_for_account(account_id@) * STORAGE_PRICE_PER_BYTE
                    } else {
                        *final(self) == *old(self) && refund is None
                    }
                },
                Err(e) => *final(self) == *old(self) && (if attached_deposit != 1 {
                    e == ContractError::InvalidArgument
                } else if !old(self).tokens_by_id@.dom().contains(token_id@) {
                    e == ContractError::NotFound
                } else {
                    e == ContractError::Authorization
                }),
            },
            final(self).owner_id == old(self).owner_id,
            final(self).metadata == old(self).metadata,
    {
        if attached_deposit != 1 {
            return Err(ContractError::InvalidArgument);
        }
        let had_approval: bool;
        match self.tokens_by_id.get(&token_id) {
            Some(token) => {
                if !(*predecessor_id == token.owner_id) {
                    return Err(ContractError::Authorization);
                }
                had_approval = token.approved_account_ids.contains_key(&account_id);
            },
            None => {
                return Err(ContractError::NotFound);
            },
        }
        if !had_approval {
            return Ok(None);
        }
        let mut token: Token = match self.tokens_by_id.remove(&token_id) {
            Some(t) => t,
            None => {
                proof {
                    assert(false);
                }
                Token {
                    owner_id: String::new(),
                    approved_account_ids: StrMap::new(),
                    next_approval_id: 0,
                }
            },
        };
        token.approved_account_ids.remove(&account_id);
        self.tokens_by_id.insert(token_id.clone(), token);
        proof {
            self.lemma_token_value_update(*old(self), token_id@);
        }
        let amount_bytes = bytes_for_approved_account_id(&account_id);
        proof {
            assert((amount_bytes as u128) * STORAGE_PRICE_PER_BYTE <= u64::MAX
                * STORAGE_PRICE_PER_BYTE) by (nonlinear_arith)
                requires
                    amount_bytes <= u64::MAX,
                    0 < STORAGE_PRICE_PER_BYTE,
            ;
        }
        Ok(
            Some(
                TransferAction {
                    receiver_id: predecessor_id.clone(),
                    amount: (amount_bytes as u128) * STORAGE_PRICE_PER_BYTE,
                },
            ),
        )
    }

    /// Revokes every approval on `token_id`, refunding the owner the
    /// aggregate storage the entries occupied.  Owner-only; requires
    /// exactly one yocto-unit attached.  Clearing an already empty map
    /// changes nothing and schedules no refund.  A rejected call leaves the
    /// registry untouched.
    pub fn nft_revoke_all(
        &mut self,
        token_id: String,
        predecessor_id: &String,
        attached_deposit: u128,
    ) -> (r: Result<Option<TransferAction>, ContractError>)
        requires
            old(self).wf(),
            old(self).tokens_by_id@.dom().contains(token_id@) ==> approval_bytes(
                old(self).tokens_by_id@[token_id@].approved_account_ids.kv(),
            ) <= u64::MAX,
        ensures
            final(self).wf(),
            r is Ok <==> (attached_deposit == 1 && old(self).tokens_by_id@.dom().contains(
                token_id@,
            ) && old(self).tokens_by_id@[token_id@].owner_id@ == predecessor_id@),
            match r {
                Ok(refund) => {
                    let t0 = old(self).tokens_by_id@[token_id@];
                    let t1 = final(self).tokens_by_id@[token_id@];
                    if t0.approved_account_ids.kv().len() > 0 {
                        &&& clears(t0, t1)
                        &&& t1.owner_id == t0.owner_id
                        &&& final(self).tokens_by_id@.dom() == old(self).tokens_by_id@.dom()
                        &&& forall|t: Seq<char>|
                            t != token_id@ && old(self).tokens_by_id@.dom().contains(t) ==> final(self).tokens_by_id@[t] == (#[trigger] old(self).tokens_by_id@[t])
                        &&& final(self).tokens_per_owner == old(self).tokens_per_owner
                        &&& final(self).token_metadata_by_id == old(self).token_metadata_by_id
                        &&& refund matches Some(a) && a.receiver_id == *predecessor_id && a.amount
                            == spec_refund_amount(t0.approved_account_ids.kv())
                    } else {
                        *final(self) == *old(self) && refund is None
                    }
                },
                Err(e) => *final(self) == *old(self) && (if attached_deposit != 1 {
                    e == ContractError::InvalidArgument
                } else if !old(self).tokens_by_id@.dom().contains(token_id@) {
                    e == ContractError::NotFound
                } else {
                    e == ContractError::Authorization
                }),
            },
            final(self).owner_id == old(self).owner_id,
            final(self).metadata == old(self).metadata,
    {
        if attached_deposit != 1 {
            return Err(ContractError::InvalidArgument);
        }
        let is_empty: bool;
        match self.tokens_by_id.get(&token_id) {
            Some(token) => {
                if !(*predecessor_id == token.owner_id) {
                    return Err(ContractError::Authorization);
                }
                is_empty = token.approved_account_ids.is_empty();
            },
            None => {
                return Err(ContractError::NotFound);
            },
        }
        if is_empty {
            return Ok(None);
        }
        let mut token: Token = match self.tokens_by_id.remove(&token_id) {
            Some(t) => t,
            None => {
                proof {
                    assert(false);
                }
                Token {
                    owner_id: String::new(),
                    approved_account_ids: StrMap::new(),
                    next_approval_id: 0,
                }
            },
        };
        let refund = refund_approved_account_ids(
            predecessor_id.clone(),
            token.approved_account_ids.entries(),
        );
        token.approved_account_ids = StrMap::new();
        self.tokens_by_id.insert(token_id.clone(), token);
        proof {
            self.lemma_token_value_update(*old(self), token_id@);
        }
        Ok(Some(refund))
    }

    /// Re-establishes the registry invariant after one token's record was
    /// replaced by a record with the same owner and a well-formed approval
    /// map, everything else untouched.
    proof fn lemma_token_value_update(&self, s0: Contract, tid: Seq<char>)
        requires
            s0.wf(),
            s0.tokens_by_id@.dom().contains(tid),
            self.tokens_by_id@.dom() =~= s0.tokens_by_id@.dom(),
            self.tokens_by_id.wf(),
            self.tokens_by_id@[tid].owner_id@ == s0.tokens_by_id@[tid].owner_id@,
            self.tokens_by_id@[tid].wf(),
            forall|t: Seq<char>|
                t != tid && s0.tokens_by_id@.dom().contains(t) ==> self.tokens_by_id@[t] == (
                #[trigger] s0.tokens_by_id@[t]),
            self.tokens_per_owner == s0.tokens_per_owner,
            self.token_metadata_by_id == s0.token_metadata_by_id,
        ensures
            self.wf(),
    {
        assert forall|t: Seq<char>| #[trigger] self.tokens_by_id@.dom().contains(t) implies {
            &&& self.tokens_by_id@[t].wf()
            &&& self.tokens_per_owner@.dom().contains(self.tokens_by_id@[t].owner_id@)
            &&& self.tokens_per_owner@[self.tokens_by_id@[t].owner_id@]@.contains(t)
        } by {
            if t != tid {
                assert(self.tokens_by_id@[t] == s0.tokens_by_id@[t]);
            }
            assert(s0.tokens_by_id@[t].owner_id@ == self.tokens_by_id@[t].owner_id@);
        }
        assert forall|o: Seq<char>, t: Seq<char>|
            self.tokens_per_owner@.dom().contains(o)
                && #[trigger] self.tokens_per_owner@[o]@.contains(t) implies {
            &&& self.tokens_by_id@.dom().contains(t)
            &&& self.tokens_by_id@[t].owner_id@ == o
        } by {
            assert(s0.tokens_by_id@[t].owner_id@ == o);
            if t != tid {
                assert(self.tokens_by_id@[t] == s0.tokens_by_id@[t]);
            }
        }
    }
}

/// The storage payment an approval call must attach: the cost of a newly
/// created entry, or nothing when the grantee already held one.
pub open spec fn spec_approve_cost(t0: Token, account: Seq<char>) -> int {
    if t0.approved_account_ids@.dom().contains(account) {
        0
    } else {
        spec_bytes_for_account(account) * STORAGE_PRICE_PER_BYTE
    }
}

/// Every live approval id was drawn from the counter, so it lies strictly
/// below it.  This is the view-level heart of `Token::wf`.
pub open spec fn ids_below_counter(t: Token) -> bool {
    forall|b: Seq<char>|
        #[trigger] t.approved_account_ids@.dom().contains(b) ==> t.approved_account_ids@[b]
            < t.next_approval_id
}

/// A lifecycle step keeps every live id below the counter, and the counter
/// never moves backwards.
pub proof fn lemma_step_wf(t0: Token, t1: Token)
    requires
        ids_below_counter(t0),
        lifecycle_step(t0, t1),
    ensures
        ids_below_counter(t1),
        t0.next_approval_id <= t1.next_approval_id,
{
    if exists|a: Seq<char>| grants(t0, t1, a) {
        let a = choose|a: Seq<char>| grants(t0, t1, a);
        assert forall|b: Seq<char>|
            #[trigger] t1.approved_account_ids@.dom().contains(b) implies
            t1.approved_account_ids@[b] < t1.next_approval_id by {
            if b != a {
                assert(t0.approved_account_ids@.dom().contains(b));
            }
        }
    } else if exists|a: Seq<char>| revokes(t0, t1, a) {
        let a = choose|a: Seq<char>| revokes(t0, t1, a);
        assert forall|b: Seq<char>|
            #[trigger] t1.approved_account_ids@.dom().contains(b) implies
            t1.approved_account_ids@[b] < t1.next_approval_id by {
            assert(t0.approved_account_ids@.dom().contains(b));
        }
    }
}

/// Well-formedness and counter monotonicity hold along any chain of
/// lifecycle steps.
pub proof fn lemma_chain_wf(tr: Seq<Token>, k: int)
    requires
        tr.len() > 0,
        ids_below_counter(tr[0]),
        forall|m: int| 0 <= m < tr.len() - 1 ==> lifecycle_step(#[trigger] tr[m], tr[m + 1]),
        0 <= k < tr.len(),
    ensures
        ids_below_counter(tr[k]),
        tr[0].next_approval_id <= tr[k].next_approval_id,
    decreases k,
{
    if k > 0 {
        lemma_chain_wf(tr, k - 1);
        lemma_step_wf(tr[k - 1], tr[k]);
    }
}

/// The counter never moves backwards between any two points of a chain.
pub proof fn lemma_next_monotonic(tr: Seq<Token>, k: int, l: int)
    requires
        tr.len() > 0,
        ids_below_counter(tr[0]),
        forall|m: int| 0 <= m < tr.len() - 1 ==> lifecycle_step(#[trigger] tr[m], tr[m + 1]),
        0 <= k <= l < tr.len(),
    ensures
        tr[k].next_approval_id <= tr[l].next_approval_id,
    decreases l - k,
{
    if k < l {
        lemma_chain_wf(tr, l - 1);
        lemma_step_wf(tr[l - 1], tr[l]);
        lemma_next_monotonic(tr, k, l - 1);
    }
}

/// Approval ids for a token are strictly increasing and never reused, even
/// across revocations and regrants: along any chain of lifecycle steps, a
/// grant at a later point uses a strictly larger id than a grant at an
/// earlier point, and the id granted at a point differs from every id that
/// was live at that point or any earlier one.
pub proof fn lemma_approval_ids_strictly_increase(
    tr: Seq<Token>,
    i: int,
    j: int,
    ai: Seq<char>,
    aj: Seq<char>,
)
    requires
        tr.len() > 0,
        ids_below_counter(tr[0]),
        forall|m: int| 0 <= m < tr.len() - 1 ==> lifecycle_step(#[trigger] tr[m], tr[m + 1]),
        0 <= i < j < tr.len() - 1,
        grants(tr[i], tr[i + 1], ai),
        grants(tr[j], tr[j + 1], aj),
    ensures
        tr[i].next_approval_id < tr[j].next_approval_id,
        forall|k: int, b: Seq<char>|
            0 <= k <= j && (#[trigger] tr[k].approved_account_ids@.dom().contains(b))
                ==> tr[k].approved_account_ids@[b] < tr[j].next_approval_id,
{
    lemma_next_monotonic(tr, i + 1, j);
    assert forall|k: int, b: Seq<char>|
        0 <= k <= j && (#[trigger] tr[k].approved_account_ids@.dom().contains(b)) implies
        tr[k].approved_account_ids@[b] < tr[j].next_approval_id by {
        lemma_chain_wf(tr, k);
        lemma_next_monotonic(tr, k, j);
    }
}

} // verus!
