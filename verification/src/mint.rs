//! Token creation and the caller-facing token view.

use vstd::prelude::*;
use crate::common::ContractError;
use crate::common::STORAGE_PRICE_PER_BYTE;
use crate::common::TransferAction;
use crate::metadata::JsonToken;
use crate::metadata::Token;
use crate::metadata::TokenMetadata;
use crate::nft_contract::Contract;
use crate::str_map::StrMap;
use crate::utils::refund_deposit;

verus! {

impl Contract {
    /// Creates `token_id` owned by `receiver_id`, charging the caller the
    /// cost of the storage delta the host measured and refunding any excess
    /// of the attached payment.  Fails if the id already exists, or if the
    /// payment does not cover the storage cost; a rejected call leaves the
    /// registry untouched.
    pub fn nft_mint(
        &mut self,
        token_id: String,
        metadata: TokenMetadata,
        receiver_id: String,
        predecessor_id: &String,
        attached_deposit: u128,
        storage_used: u64,
    ) -> (r: Result<Option<TransferAction>, ContractError>)
        requires
            old(self).wf(),
        ensures
            final(self).wf(),
            r is Ok <==> (!old(self).tokens_by_id@.dom().contains(token_id@) && attached_deposit
                >= storage_used * STORAGE_PRICE_PER_BYTE),
            match r {
                Ok(refund) => {
                    &&& final(self).tokens_by_id@.dom() == old(self).tokens_by_id@.dom().insert(
                        token_id@,
                    )
                    &&& final(self).tokens_by_id.kv() == old(self).tokens_by_id.kv().push(
                        (token_id, final(self).tokens_by_id@[token_id@]),
                    )
                    &&& final(self).tokens_by_id@[token_id@].owner_id == receiver_id
                    &&& final(self).tokens_by_id@[token_id@].approved_account_ids@ == Map::<
                        Seq<char>,
                        u64,
                    >::empty()
                    &&& final(self).tokens_by_id@[token_id@].approved_account_ids.kv() == Seq::<
                        (String, u64),
                    >::empty()
                    &&& final(self).tokens_by_id@[token_id@].next_approval_id == 0
                    &&& forall|t: Seq<char>|
                        t != token_id@ && old(self).tokens_by_id@.dom().contains(t) ==> final(self).tokens_by_id@[t] == (#[trigger] old(self).tokens_by_id@[t])
                    &&& final(self).token_metadata_by_id@ == old(self).token_metadata_by_id@.insert(token_id@, metadata)
                    &&& final(self).token_metadata_by_id.kv() == old(self).token_metadata_by_id.kv().push((token_id, metadata))
                    &&& {
                        let excess = attached_deposit - storage_used * STORAGE_PRICE_PER_BYTE;
                        if excess > 1 {
                            refund matches Some(a) && a.receiver_id == *predecessor_id && a.amount
                                == excess
                        } else {
                            refund is None
                        }
                    }
                },
                Err(e) => *final(self) == *old(self) && (if old(self).tokens_by_id@.dom().contains(
                    token_id@,
                ) {
                    e == ContractError::InvalidArgument
                } else {
                    e == ContractError::InsufficientFunds
                }),
            },
            final(self).owner_id == old(self).owner_id,
            final(self).metadata == old(self).metadata,
    {
        if self.tokens_by_id.contains_key(&token_id) {
            return Err(ContractError::InvalidArgument);
        }
        let refund = match refund_deposit(storage_used, attached_deposit, predecessor_id) {
            Ok(x) => x,
            Err(e) => {
                return Err(e);
            },
        };
        let owner_for_index = receiver_id.clone();
        let token = Token {
            owner_id: receiver_id,
            approved_account_ids: StrMap::new(),
            next_approval_id: 0,
        };
        self.tokens_by_id.insert(token_id.clone(), token);
        self.token_metadata_by_id.insert(token_id.clone(), metadata);
        self.internal_add_token_to_owner(&token_id, &owner_for_index);
        proof {
            let s0 = *old(self);
            assert(self.tokens_by_id@.dom() =~= s0.tokens_by_id@.dom().insert(token_id@));
            assert forall|t: Seq<char>| #[trigger] self.tokens_by_id@.dom().contains(t) implies {
                &&& self.tokens_by_id@[t].wf()
                &&& self.tokens_per_owner@.dom().contains(self.tokens_by_id@[t].owner_id@)
                &&& self.tokens_per_owner@[self.tokens_by_id@[t].owner_id@]@.contains(t)
            } by {
                if t == token_id@ {
                    assert(self.tokens_per_owner@[owner_for_index@]@.contains(t));
                } else {
                    assert(self.tokens_by_id@[t] == s0.tokens_by_id@[t]);
                    let o = s0.tokens_by_id@[t].owner_id@;
                    assert(s0.tokens_per_owner@.dom().contains(o));
                    assert(s0.tokens_per_owner@[o]@.contains(t));
                    if o == owner_for_index@ {
                    } else {
                        assert(self.tokens_per_owner@[o] == s0.tokens_per_owner@[o]);
                    }
                }
            }
            assert forall|o: Seq<char>, t: Seq<char>|
                self.tokens_per_owner@.dom().contains(o)
                    && #[trigger] self.tokens_per_owner@[o]@.contains(t) implies {
                &&& self.tokens_by_id@.dom().contains(t)
                &&& self.tokens_by_id@[t].owner_id@ == o
            } by {
                if o == owner_for_index@ {
                    if t != token_id@ {
                        assert(s0.tokens_per_owner@.dom().contains(o)
                            && s0.tokens_per_owner@[o]@.contains(t));
                        assert(s0.tokens_by_id@[t].owner_id@ == o);
                        assert(self.tokens_by_id@[t] == s0.tokens_by_id@[t]);
                    }
                } else {
                    assert(self.tokens_per_owner@[o] == s0.tokens_per_owner@[o]);
                    assert(s0.tokens_per_owner@.dom().contains(o));
                    assert(s0.tokens_per_owner@[o]@.contains(t));
                    assert(s0.tokens_by_id@[t].owner_id@ == o);
                    assert(t != token_id@);
                    assert(self.tokens_by_id@[t] == s0.tokens_by_id@[t]);
                }
            }
        }
        Ok(refund)
    }

    /// The token joined with its metadata, as reported to callers.
    pub fn nft_token(&self, token_id: String) -> (r: Option<JsonToken>)
        requires
            self.wf(),
        ensures
            r is Some <==> self.tokens_by_id@.dom().contains(token_id@),
            match r {
                Some(jt) => {
                    &&& jt.owner_id == self.tokens_by_id@[token_id@].owner_id
                    &&& jt.token_id == token_id
                    &&& jt.metadata == self.token_metadata_by_id@[token_id@]
                    &&& jt.approved_account_ids@ == self.tokens_by_id@[token_id@].approved_account_ids@
                },
                None => true,
            },
    {
        match self.tokens_by_id.get(&token_id) {
            Some(token) => {
                let metadata: TokenMetadata = match self.token_metadata_by_id.get(&token_id) {
                    Some(m) => m.duplicate(),
                    None => {
                        proof {
                            assert(false);
                        }
                        TokenMetadata {
                            title: None,
                            description: None,
                            media: None,
                            media_hash: None,
                            copies: None,
                            issued_at: None,
                            expires_at: None,
                            starts_at: None,
                            updated_at: None,
                            extra: None,
                            reference: None,
                            reference_hash: None,
                        }
                    },
                };
                Some(
                    JsonToken {
                        owner_id: token.owner_id.clone(),
                        token_id,
                        metadata,
                        approved_account_ids: token.approved_account_ids.duplicate(),
                    },
                )
            },
            None => None,
        }
    }
}

} // verus!
