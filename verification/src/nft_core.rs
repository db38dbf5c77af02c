//! Ownership transfer, with and without the asynchronous confirmation
//! handshake, and the resolver that commits or rolls the handshake back.
//!
//! The synchronous path moves ownership and settles the storage refund at
//! once.  The asynchronous path performs the same move, then schedules the
//! receiver's hook and a resolver; the approval-map snapshot rides with the
//! resolver, which runs exactly once after the hook settles: a hook that
//! returned `false` commits the move, while `true`, a failure, or malformed
//! bytes roll it back — unless the token has meanwhile vanished or moved
//! on, in which case the rollback is skipped.  Whichever side ends up
//! without the approval map receives its storage refund.

use vstd::prelude::*;
use crate::approval::clears;
use crate::codec::spec_parse_bool;
use crate::codec::parse_bool;
use crate::common::ContractError;
use crate::common::RemoteResult;
use crate::common::TransferAction;
use crate::internal::lemma_set_two;
use crate::internal::transfer_allowed;
use crate::metadata::Token;
use crate::nft_contract::Contract;
use crate::str_map::StrMap;
use crate::utils::approval_bytes;
use crate::utils::refund_approved_account_ids;
use crate::utils::spec_refund_amount;

verus! {

/// The scheduled call to the receiving component's transfer hook.
#[derive(Debug)]
pub struct OnTransferCall {
    /// The component whose hook will run.
    pub receiver_id: String,
    pub sender_id: String,
    pub previous_owner_id: String,
    pub token_id: String,
    pub msg: String,
}

/// The resolver registration riding behind the hook call: everything needed
/// to restore the previous state if the hook asks for a rollback.
#[derive(Debug)]
pub struct TransferResolution {
    pub owner_id: String,
    pub receiver_id: String,
    pub token_id: String,
    /// The approval map as it stood before the transfer cleared it.
    pub approved_account_ids: StrMap<u64>,
}

/// What a transfer-with-callback schedules.
#[derive(Debug)]
pub struct TransferCallReceipt {
    pub on_transfer: OnTransferCall,
    pub resolution: TransferResolution,
}

/// The remote hook settled with a request to keep the transfer.
pub open spec fn remote_committed(outcome: RemoteResult) -> bool {
    outcome matches RemoteResult::Succeeded(v) && spec_parse_bool(v@) == Some(false)
}

/// The core transfer surface of the registry.
pub trait NonFungibleTokenCore {
    fn nft_transfer(
        &mut self,
        receiver_id: String,
        token_id: String,
        approval_id: u64,
        memo: Option<String>,
        predecessor_id: &String,
        attached_deposit: u128,
    ) -> Result<TransferAction, ContractError>;

    fn nft_transfer_call(
        &mut self,
        receiver_id: String,
        token_id: String,
        memo: Option<String>,
        approval_id: u64,
        msg: String,
        predecessor_id: &String,
        attached_deposit: u128,
    ) -> Result<TransferCallReceipt, ContractError>;
}

impl Contract {
    /// Moves `token_id` to `receiver_id` synchronously.  The caller must be
    /// the owner or hold an approval whose id matches `approval_id`
    /// exactly, and must attach exactly one yocto-unit.  The whole approval
    /// map is cleared so the new owner starts clean, and its storage cost
    /// flows back to the previous owner, who paid for those entries.  A
    /// rejected call leaves the registry untouched.
    pub fn nft_transfer(
        &mut self,
        receiver_id: String,
        token_id: String,
        approval_id: u64,
        memo: Option<String>,
        predecessor_id: &String,
        attached_deposit: u128,
    ) -> (r: Result<TransferAction, ContractError>)
        requires
            old(self).wf(),
            old(self).tokens_by_id@.dom().contains(token_id@) ==> approval_bytes(
                old(self).tokens_by_id@[token_id@].approved_account_ids.kv(),
            ) <= u64::MAX,
        ensures
            final(self).wf(),
            r is Ok <==> (attached_deposit == 1 && old(self).tokens_by_id@.dom().contains(
                token_id@,
            ) && transfer_allowed(
                old(self).tokens_by_id@[token_id@],
                predecessor_id@,
                Some(approval_id),
            ) && old(self).tokens_by_id@[token_id@].owner_id@ != receiver_id@),
            match r {
                Ok(refund) => {
                    let t0 = old(self).tokens_by_id@[token_id@];
                    let t1 = final(self).tokens_by_id@[token_id@];
                    &&& clears(t0, t1)
                    &&& t1.owner_id == receiver_id
                    &&& final(self).tokens_by_id@.dom() == old(self).tokens_by_id@.dom()
                    &&& forall|t: Seq<char>|
                        t != token_id@ && old(self).tokens_by_id@.dom().contains(t) ==> final(self).tokens_by_id@[t] == (#[trigger] old(self).tokens_by_id@[t])
                    &&& final(self).token_metadata_by_id == old(self).token_metadata_by_id
                    &&& refund.receiver_id == t0.owner_id
                    &&& refund.amount == spec_refund_amount(t0.approved_account_ids.kv())
                },
                Err(e) => *final(self) == *old(self) && (if attached_deposit != 1 {
                    e == ContractError::InvalidArgument
                } else if !old(self).tokens_by_id@.dom().contains(token_id@) {
                    e == ContractError::NotFound
                } else if !transfer_allowed(
                    old(self).tokens_by_id@[token_id@],
                    predecessor_id@,
                    Some(approval_id),
                ) {
                    e == ContractError::Authorization
                } else {
                    e == ContractError::InvalidArgument
                }),
            },
            final(self).owner_id == old(self).owner_id,
            final(self).metadata == old(self).metadata,
    {
        if attached_deposit != 1 {
            return Err(ContractError::InvalidArgument);
        }
        let previous_token = match self.internal_transfer(
            predecessor_id,
            &receiver_id,
            &token_id,
            Some(approval_id),
            memo,
        ) {
            Ok(t) => t,
            Err(e) => {
                return Err(e);
            },
        };
        let refund = refund_approved_account_ids(
            previous_token.owner_id.clone(),
            previous_token.approved_account_ids.entries(),
        );
        Ok(refund)
    }

    /// Moves `token_id` to `receiver_id` and schedules the receiver's hook
    /// with the resolver behind it.  Same preconditions and local effect as
    /// the synchronous transfer, but no refund is settled yet: the approval
    /// snapshot rides with the resolver, which later settles it on
    /// whichever side keeps the token.  A rejected call leaves the registry
    /// untouched and schedules nothing.
    pub fn nft_transfer_call(
        &mut self,
        receiver_id: String,
        token_id: String,
        memo: Option<String>,
        approval_id: u64,
        msg: String,
        predecessor_id: &String,
        attached_deposit: u128,
    ) -> (r: Result<TransferCallReceipt, ContractError>)
        requires
            old(self).wf(),
        ensures
            final(self).wf(),
            r is Ok <==> (attached_deposit == 1 && old(self).tokens_by_id@.dom().contains(
                token_id@,
            ) && transfer_allowed(
                old(self).tokens_by_id@[token_id@],
                predecessor_id@,
                Some(approval_id),
            ) && old(self).tokens_by_id@[token_id@].owner_id@ != receiver_id@),
            match r {
                Ok(receipt) => {
                    let t0 = old(self).tokens_by_id@[token_id@];
                    let t1 = final(self).tokens_by_id@[token_id@];
                    &&& clears(t0, t1)
                    &&& t1.owner_id == receiver_id
                    &&& final(self).tokens_by_id@.dom() == old(self).tokens_by_id@.dom()
                    &&& forall|t: Seq<char>|
                        t != token_id@ && old(self).tokens_by_id@.dom().contains(t) ==> final(self).tokens_by_id@[t] == (#[trigger] old(self).tokens_by_id@[t])
                    &&& final(self).token_metadata_by_id == old(self).token_metadata_by_id
                    &&& receipt.on_transfer.receiver_id == receiver_id
                    &&& receipt.on_transfer.sender_id == *predecessor_id
                    &&& receipt.on_transfer.previous_owner_id == t0.owner_id
                    &&& receipt.on_transfer.token_id == token_id
                    &&& receipt.on_transfer.msg == msg
                    &&& receipt.resolution.owner_id == t0.owner_id
                    &&& receipt.resolution.receiver_id == receiver_id
                    &&& receipt.resolution.token_id == token_id
                    &&& receipt.resolution.approved_account_ids == t0.approved_account_ids
                },
                Err(e) => *final(self) == *old(self) && (if attached_deposit != 1 {
                    e == ContractError::InvalidArgument
                } else if !old(self).tokens_by_id@.dom().contains(token_id@) {
                    e == ContractError::NotFound
                } else if !transfer_allowed(
                    old(self).tokens_by_id@[token_id@],
                    predecessor_id@,
                    Some(approval_id),
                ) {
                    e == ContractError::Authorization
                } else {
                    e == ContractError::InvalidArgument
                }),
            },
            final(self).owner_id == old(self).owner_id,
            final(self).metadata == old(self).metadata,
    {
        if attached_deposit != 1 {
            return Err(ContractError::InvalidArgument);
        }
        let previous_token = match self.internal_transfer(
            predecessor_id,
            &receiver_id,
            &token_id,
            Some(approval_id),
            memo,
        ) {
            Ok(t) => t,
            Err(e) => {
                return Err(e);
            },
        };
        let receipt = TransferCallReceipt {
            on_transfer: OnTransferCall {
                receiver_id: receiver_id.clone(),
                sender_id: predecessor_id.clone(),
                previous_owner_id: previous_token.owner_id.clone(),
                token_id: token_id.clone(),
                msg,
            },
            resolution: TransferResolution {
                owner_id: previous_token.owner_id,
                receiver_id,
                token_id,
                approved_account_ids: previous_token.approved_account_ids,
            },
        };
        Ok(receipt)
    }

    /// Settles a transfer-with-callback after its hook settled.  When the
    /// hook returned `false` the transfer stands and the previous owner is
    /// refunded the cleared snapshot's storage.  Otherwise a rollback is
    /// attempted: if the receiver still holds the token, the previous owner
    /// and the snapshot are restored and the receiver is refunded the
    /// approvals it had accumulated; if the token is gone or has moved on,
    /// the rollback is skipped and the snapshot's storage is refunded to
    /// the previous owner.  Returns whether the transfer finally stands,
    /// with the refund to perform.
    pub fn nft_resolve_transfer(
        &mut self,
        owner_id: String,
        receiver_id: String,
        token_id: String,
        approved_account_ids: StrMap<u64>,
        outcome: RemoteResult,
    ) -> (r: (bool, TransferAction))
        requires
            old(self).wf(),
            approved_account_ids.wf(),
            approval_bytes(approved_account_ids.kv()) <= u64::MAX,
            old(self).tokens_by_id@.dom().contains(token_id@) ==> approval_bytes(
                old(self).tokens_by_id@[token_id@].approved_account_ids.kv(),
            ) <= u64::MAX,
            old(self).tokens_by_id@.dom().contains(token_id@) ==> forall|b: Seq<char>|
                #[trigger] approved_account_ids@.dom().contains(b) ==> approved_account_ids@[b]
                    < old(self).tokens_by_id@[token_id@].next_approval_id,
        ensures
            final(self).wf(),
            ({
                let token_there = old(self).tokens_by_id@.dom().contains(token_id@);
                let receiver_holds = token_there && old(self).tokens_by_id@[token_id@].owner_id@ == receiver_id@;
                if remote_committed(outcome) || !receiver_holds {
                    &&& *final(self) == *old(self)
                    &&& r.0 == true
                    &&& r.1.receiver_id == owner_id
                    &&& r.1.amount == spec_refund_amount(approved_account_ids.kv())
                } else {
                    &&& r.0 == false
                    &&& r.1.receiver_id == receiver_id
                    &&& r.1.amount == spec_refund_amount(
                        old(self).tokens_by_id@[token_id@].approved_account_ids.kv(),
                    )
                    &&& final(self).tokens_by_id@.dom() == old(self).tokens_by_id@.dom()
                    &&& final(self).tokens_by_id@[token_id@].owner_id == owner_id
                    &&& final(self).tokens_by_id@[token_id@].approved_account_ids@
                        == approved_account_ids@
                    &&& final(self).tokens_by_id@[token_id@].next_approval_id == old(self).tokens_by_id@[token_id@].next_approval_id
                    &&& forall|t: Seq<char>|
                        t != token_id@ && old(self).tokens_by_id@.dom().contains(t) ==> final(self).tokens_by_id@[t] == (#[trigger] old(self).tokens_by_id@[t])
                    &&& final(self).token_metadata_by_id == old(self).token_metadata_by_id
                }
            }),
            final(self).owner_id == old(self).owner_id,
            final(self).metadata == old(self).metadata,
    {
        broadcast use vstd::set::group_set_axioms;

        let rollback: bool = match &outcome {
            RemoteResult::Succeeded(value) => match parse_bool(value) {
                Some(b) => b,
                None => true,
            },
            RemoteResult::Failed => true,
        };
        if !rollback {
            let refund = refund_approved_account_ids(owner_id, approved_account_ids.entries());
            return (true, refund);
        }
        let receiver_holds: bool = match self.tokens_by_id.get(&token_id) {
            Some(token) => token.owner_id == receiver_id,
            None => false,
        };
        if !receiver_holds {
            let refund = refund_approved_account_ids(owner_id, approved_account_ids.entries());
            return (true, refund);
        }
        let prev: Token = match self.tokens_by_id.remove(&token_id) {
            Some(t) => t,
            None => {
                proof {
                    assert(false);
                }
                Token {
                    owner_id: String::new(),
                    approved_account_ids: StrMap::new(),
                    next_approval_id: 0,
                }
            },
        };
        let refund = refund_approved_account_ids(
            receiver_id.clone(),
            prev.approved_account_ids.entries(),
        );
        self.internal_remove_token_from_owner(&token_id, &receiver_id);
        let ghost mid1 = *self;
        self.internal_add_token_to_owner(&token_id, &owner_id);
        let restored = Token {
            owner_id: owner_id,
            approved_account_ids: approved_account_ids,
            next_approval_id: prev.next_approval_id,
        };
        self.tokens_by_id.insert(token_id, restored);
        proof {
            let s0 = *old(self);
            let ro = receiver_id@;
            let no = restored.owner_id@;
            assert(prev == s0.tokens_by_id@[token_id@]);
            assert(self.tokens_by_id@ =~= s0.tokens_by_id@.insert(token_id@, restored));
            assert(self.tokens_by_id@.dom() =~= s0.tokens_by_id@.dom());
            assert(s0.tokens_per_owner@.dom().contains(ro));
            assert(s0.tokens_per_owner@[ro]@.contains(token_id@));
            s0.tokens_per_owner@[ro].lemma_props();
            assert forall|b: Seq<char>|
                #[trigger] restored.approved_account_ids@.dom().contains(b) implies
                restored.approved_account_ids@[b] < restored.next_approval_id by {}
            assert forall|t: Seq<char>| #[trigger] self.tokens_by_id@.dom().contains(t) implies {
                &&& self.tokens_by_id@[t].wf()
                &&& self.tokens_per_owner@.dom().contains(self.tokens_by_id@[t].owner_id@)
                &&& self.tokens_per_owner@[self.tokens_by_id@[t].owner_id@]@.contains(t)
            } by {
                if t == token_id@ {
                    assert(self.tokens_by_id@[t] == restored);
                    assert(self.tokens_per_owner@[no]@.contains(t));
                } else {
                    assert(self.tokens_by_id@[t] == s0.tokens_by_id@[t]);
                    let o = s0.tokens_by_id@[t].owner_id@;
                    assert(s0.tokens_per_owner@.dom().contains(o));
                    assert(s0.tokens_per_owner@[o]@.contains(t));
                    if o == ro {
                        lemma_set_two(s0.tokens_per_owner@[ro]@, t, token_id@);
                        assert(mid1.tokens_per_owner@[o]@.contains(t));
                        if o == no {
                        } else {
                            assert(self.tokens_per_owner@[o] == mid1.tokens_per_owner@[o]);
                        }
                    } else {
                        assert(mid1.tokens_per_owner@[o] == s0.tokens_per_owner@[o]);
                        if o == no {
                            assert(self.tokens_per_owner@[o]@.contains(t));
                        } else {
                            assert(self.tokens_per_owner@[o] == mid1.tokens_per_owner@[o]);
                        }
                    }
                }
            }
            assert forall|o: Seq<char>, t: Seq<char>|
                self.tokens_per_owner@.dom().contains(o)
                    && #[trigger] self.tokens_per_owner@[o]@.contains(t) implies {
                &&& self.tokens_by_id@.dom().contains(t)
                &&& self.tokens_by_id@[t].owner_id@ == o
            } by {
                if o == no {
                    if t == token_id@ {
                        assert(self.tokens_by_id@[t].owner_id@ == no);
                    } else {
                        if no == ro {
                            assert(mid1.tokens_per_owner@.dom().contains(o)
                                ==> mid1.tokens_per_owner@[o]@.contains(t));
                            assert(s0.tokens_per_owner@[o]@.contains(t));
                        } else {
                            assert(mid1.tokens_per_owner@.dom().contains(o)
                                ==> mid1.tokens_per_owner@[o]@.contains(t));
                            assert(s0.tokens_per_owner@.dom().contains(o)
                                && s0.tokens_per_owner@[o]@.contains(t));
                        }
                        assert(s0.tokens_by_id@[t].owner_id@ == o);
                        assert(self.tokens_by_id@[t] == s0.tokens_by_id@[t]);
                    }
                } else {
                    assert(self.tokens_per_owner@[o] == mid1.tokens_per_owner@[o]);
                    assert(mid1.tokens_per_owner@.dom().contains(o));
                    if o == ro {
                        assert(s0.tokens_per_owner@[ro]@.len() > 1);
                        assert(mid1.tokens_per_owner@[o]@ == s0.tokens_per_owner@[o]@.remove(
                            token_id@,
                        ));
                        assert(s0.tokens_per_owner@[o]@.contains(t));
                        assert(t != token_id@);
                    } else {
                        assert(mid1.tokens_per_owner@[o] == s0.tokens_per_owner@[o]);
                        assert(s0.tokens_per_owner@[o]@.contains(t));
                        assert(t != token_id@);
                    }
                    assert(s0.tokens_by_id@[t].owner_id@ == o);
                    assert(self.tokens_by_id@[t] == s0.tokens_by_id@[t]);
                }
            }
        }
        (false, refund)
    }
}

} // verus!
