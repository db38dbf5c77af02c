//! The approval-notification hook: the only way a listing is created.
//!
//! The registry schedules this hook when an owner approves the marketplace
//! with a message; the host invokes it with the registry as the immediate
//! caller and the approving owner as the transaction's signer.  The hook
//! rejects a direct invocation (caller equal to signer), a claimed owner
//! other than the signer, a signer whose prepaid rent cannot cover one more
//! listing, and a message that is not a well-formed sale-conditions
//! message.  It then stores the listing under (caller registry, token id)
//! and brings both secondary indexes along in the same step.

use vstd::prelude::*;
use crate::codec::parse_sale_args;
use crate::codec::spec_parse_sale_args;
use crate::common::ContractError;
use crate::common::STORAGE_PER_SALE;
use crate::market_contract::Contract;
use crate::market_contract::Sale;
use crate::pair_set::PairSet;
use crate::str_set::StrSet;

verus! {

/// The hook the marketplace implements to be notified of an approval.
pub trait NonFungibleTokenApprovalReceiver {
    fn nft_on_approve(
        &mut self,
        token_id: String,
        owner_id: String,
        approval_id: u64,
        msg: Vec<u8>,
        predecessor_id: &String,
        signer_id: &String,
    ) -> Result<(), ContractError>;
}

/// The payload of an approval notification: the asking price.
#[derive(Debug)]
pub struct SaleArgs {
    pub sale_conditions: u128,
}

impl Contract {
    /// Creates (or replaces) the listing for `(caller registry, token_id)`
    /// out of an approval notification.  See the module description for
    /// the checks; a rejected call leaves the marketplace untouched.
    pub fn nft_on_approve(
        &mut self,
        token_id: String,
        owner_id: String,
        approval_id: u64,
        msg: Vec<u8>,
        predecessor_id: &String,
        signer_id: &String,
    ) -> (r: Result<(), ContractError>)
        requires
            old(self).wf(),
        ensures
            final(self).wf(),
            r is Ok <==> (predecessor_id@ != signer_id@ && signer_id@ == owner_id@ && old(self).spec_balance_of(signer_id@) >= (old(self).spec_listing_count(signer_id@) + 1)
                * STORAGE_PER_SALE && spec_parse_sale_args(msg@) is Some),
            match r {
                Ok(u) => {
                    let key = (predecessor_id@, token_id@);
                    &&& final(self).sales@.dom() == old(self).sales@.dom().insert(key)
                    &&& final(self).sales@[key].owner_id == owner_id
                    &&& final(self).sales@[key].approval_id == approval_id
                    &&& final(self).sales@[key].nft_contract_id == *predecessor_id
                    &&& final(self).sales@[key].token_id == token_id
                    &&& spec_parse_sale_args(msg@) == Some(
                        final(self).sales@[key].sale_conditions,
                    )
                    &&& forall|k2: (Seq<char>, Seq<char>)|
                        k2 != key && old(self).sales@.dom().contains(k2) ==> final(self).sales@[k2] == (#[trigger] old(self).sales@[k2])
                    &&& final(self).storage_deposits == old(self).storage_deposits
                },
                Err(e) => *final(self) == *old(self) && (if predecessor_id@ == signer_id@ {
                    e == ContractError::Authorization
                } else if signer_id@ != owner_id@ {
                    e == ContractError::Authorization
                } else if old(self).spec_balance_of(signer_id@) < (old(self).spec_listing_count(
                    signer_id@,
                ) + 1) * STORAGE_PER_SALE {
                    e == ContractError::InsufficientFunds
                } else {
                    e == ContractError::InvalidArgument
                }),
            },
            final(self).owner_id == old(self).owner_id,
    {
        broadcast use vstd::set::group_set_axioms;

        if *predecessor_id == *signer_id {
            return Err(ContractError::Authorization);
        }
        if !(*signer_id == owner_id) {
            return Err(ContractError::Authorization);
        }
        let storage_balance: u128 = match self.storage_deposits.get(signer_id) {
            Some(b) => *b,
            None => 0,
        };
        let cnt: usize = match self.by_owner_id.get(signer_id) {
            Some(s) => {
                proof {
                    s.lemma_props();
                }
                s.len()
            },
            None => 0,
        };
        proof {
            if cnt > 0 {
                assert(old(self).by_owner_id@.dom().contains(signer_id@));
                assert(old(self).spec_balance_of(signer_id@) >= old(self).by_owner_id@[signer_id@]@.len() * STORAGE_PER_SALE);
            }
        }
        let storage_required_base: u128 = (cnt as u128) * STORAGE_PER_SALE;
        if storage_balance < storage_required_base {
            proof {
                assert(false);
            }
            return Err(ContractError::InsufficientFunds);
        }
        if storage_balance - storage_required_base < STORAGE_PER_SALE {
            return Err(ContractError::InsufficientFunds);
        }
        let sale_conditions: u128 = match parse_sale_args(&msg) {
            Some(p) => p,
            None => {
                return Err(ContractError::InvalidArgument);
            },
        };
        // A listing may already sit under this key (the token was approved
        // to this marketplace before): take it out, indexes and all, so the
        // fresh listing replaces it atomically.
        if self.sales.contains_key(predecessor_id, &token_id) {
            let removed = self.internal_remove_sale(predecessor_id, &token_id);
            proof {
                assert(removed is Ok);
            }
        }
        let ghost s1 = *self;
        let ghost key = (predecessor_id@, token_id@);
        proof {
            assert(!s1.sales@.dom().contains(key));
            if old(self).sales@.dom().contains(key) {
                assert(s1.sales@ == old(self).sales@.remove(key));
            } else {
                assert(s1 == *old(self));
            }
        }
        let sale = Sale {
            owner_id: owner_id.clone(),
            approval_id,
            nft_contract_id: predecessor_id.clone(),
            token_id: token_id.clone(),
            sale_conditions,
        };
        self.sales.insert(predecessor_id.clone(), token_id.clone(), sale);
        let mut oset: PairSet = match self.by_owner_id.remove(&owner_id) {
            Some(s) => s,
            None => PairSet::new(),
        };
        proof {
            oset.lemma_props();
            if s1.by_owner_id@.dom().contains(owner_id@) {
                assert(oset == s1.by_owner_id@[owner_id@]);
                assert(!oset@.contains(key));
            }
        }
        oset.insert(predecessor_id.clone(), token_id.clone());
        proof {
            oset.lemma_props();
        }
        self.by_owner_id.insert(owner_id.clone(), oset);
        let mut cset: StrSet = match self.by_contract_id.remove(predecessor_id) {
            Some(s) => s,
            None => StrSet::new(),
        };
        proof {
            cset.lemma_props();
        }
        cset.insert(token_id.clone());
        proof {
            cset.lemma_props();
        }
        self.by_contract_id.insert(predecessor_id.clone(), cset);
        proof {
            let s0 = *old(self);
            let so = owner_id@;
            assert(self.sales@ =~= s1.sales@.insert(key, self.sales@[key]));
            assert(self.sales@.dom() =~= s0.sales@.dom().insert(key));
            assert(self.sales@[key].owner_id@ == so);
            // Both indexes: the signer's entry and the caller registry's
            // entry gained this key; everyone else is untouched.
            assert forall|k2: (Seq<char>, Seq<char>)|
                #[trigger] self.sales@.dom().contains(k2) implies {
                &&& self.by_owner_id@.dom().contains(self.sales@[k2].owner_id@)
                &&& self.by_owner_id@[self.sales@[k2].owner_id@]@.contains(k2)
                &&& self.by_contract_id@.dom().contains(k2.0)
                &&& self.by_contract_id@[k2.0]@.contains(k2.1)
                &&& self.sales@[k2].nft_contract_id@ == k2.0
                &&& self.sales@[k2].token_id@ == k2.1
            } by {
                if k2 == key {
                    assert(self.by_owner_id@[so]@.contains(k2));
                    assert(self.by_contract_id@[key.0]@.contains(k2.1));
                } else {
                    assert(s1.sales@.dom().contains(k2));
                    assert(self.sales@[k2] == s1.sales@[k2]);
                    let o2 = s1.sales@[k2].owner_id@;
                    assert(s1.by_owner_id@.dom().contains(o2));
                    assert(s1.by_owner_id@[o2]@.contains(k2));
                    if o2 == so {
                        assert(self.by_owner_id@[so]@.contains(k2));
                    } else {
                        assert(self.by_owner_id@[o2] == s1.by_owner_id@[o2]);
                    }
                    assert(s1.by_contract_id@.dom().contains(k2.0));
                    assert(s1.by_contract_id@[k2.0]@.contains(k2.1));
                    if k2.0 == key.0 {
                        assert(self.by_contract_id@[k2.0]@.contains(k2.1));
                    } else {
                        assert(self.by_contract_id@[k2.0] == s1.by_contract_id@[k2.0]);
                    }
                }
            }
            assert forall|o: Seq<char>, k2: (Seq<char>, Seq<char>)|
                self.by_owner_id@.dom().contains(o) && #[trigger] self.by_owner_id@[o]@.contains(
                    k2,
                ) implies {
                &&& self.sales@.dom().contains(k2)
                &&& self.sales@[k2].owner_id@ == o
            } by {
                if o == so {
                    if k2 != key {
                        assert(s1.by_owner_id@.dom().contains(o) && s1.by_owner_id@[o]@.contains(
                            k2,
                        ));
                        assert(s1.sales@.dom().contains(k2));
                        assert(s1.sales@[k2].owner_id@ == o);
                        assert(k2 != key);
                        assert(self.sales@[k2] == s1.sales@[k2]);
                    }
                } else {
                    assert(self.by_owner_id@[o] == s1.by_owner_id@[o]);
                    assert(s1.by_owner_id@.dom().contains(o));
                    assert(s1.by_owner_id@[o]@.contains(k2));
                    assert(s1.sales@.dom().contains(k2));
                    assert(s1.sales@[k2].owner_id@ == o);
                    assert(k2 != key);
                    assert(self.sales@[k2] == s1.sales@[k2]);
                }
            }
            assert forall|c: Seq<char>, t: Seq<char>|
                self.by_contract_id@.dom().contains(c)
                    && #[trigger] self.by_contract_id@[c]@.contains(t) implies self.sales@.dom().contains(
                (c, t),
            ) by {
                if c == key.0 {
                    if t != key.1 {
                        assert(s1.by_contract_id@.dom().contains(c)
                            && s1.by_contract_id@[c]@.contains(t));
                        assert(s1.sales@.dom().contains((c, t)));
                    }
                } else {
                    assert(self.by_contract_id@[c] == s1.by_contract_id@[c]);
                    assert(s1.by_contract_id@.dom().contains(c));
                    assert(s1.by_contract_id@[c]@.contains(t));
                    assert(s1.sales@.dom().contains((c, t)));
                }
            }
            // Rent: the signer checked in for one more listing; everyone
            // else's entries only ever shrank during the cleanup.
            assert forall|a: Seq<char>| #[trigger] self.by_owner_id@.dom().contains(a) implies
                self.spec_balance_of(a) >= self.by_owner_id@[a]@.len() * STORAGE_PER_SALE by {
                assert(self.spec_balance_of(a) == s0.spec_balance_of(a));
                if a == so {
                    let oldset = if s0.by_owner_id@.dom().contains(so) {
                        s0.by_owner_id@[so]@
                    } else {
                        Set::<(Seq<char>, Seq<char>)>::empty()
                    };
                    let s1set = if s1.by_owner_id@.dom().contains(so) {
                        s1.by_owner_id@[so]@
                    } else {
                        Set::<(Seq<char>, Seq<char>)>::empty()
                    };
                    assert(s1set.subset_of(oldset)) by {
                        assert forall|k2: (Seq<char>, Seq<char>)| #[trigger] s1set.contains(
                            k2,
                        ) implies oldset.contains(k2) by {
                            assert(s1.by_owner_id@.dom().contains(so));
                            assert(s1.sales@.dom().contains(k2));
                            assert(s1.sales@[k2].owner_id@ == so);
                            assert(s0.sales@.dom().contains(k2));
                            assert(s0.sales@[k2] == s1.sales@[k2]);
                        }
                    }
                    if s0.by_owner_id@.dom().contains(so) {
                        s0.by_owner_id@[so].lemma_props();
                    }
                    if s1.by_owner_id@.dom().contains(so) {
                        s1.by_owner_id@[so].lemma_props();
                    }
                    vstd::set_lib::lemma_len_subset(s1set, oldset);
                    assert(self.by_owner_id@[so]@ =~= s1set.insert(key));
                    assert(!s1set.contains(key));
                    assert(self.by_owner_id@[so]@.len() == s1set.len() + 1);
                    assert(oldset.len() == s0.spec_listing_count(so));
                    assert(s0.spec_balance_of(so) >= (s0.spec_listing_count(so) + 1)
                        * STORAGE_PER_SALE);
                    assert(self.by_owner_id@[so]@.len() * STORAGE_PER_SALE <= (
                    s0.spec_listing_count(so) + 1) * STORAGE_PER_SALE) by (nonlinear_arith)
                        requires
                            self.by_owner_id@[so]@.len() <= s0.spec_listing_count(so) + 1,
                            0 < STORAGE_PER_SALE,
                    ;
                } else {
                    assert(self.by_owner_id@[a] == s1.by_owner_id@[a]);
                    assert(s1.by_owner_id@.dom().contains(a));
                    let s1set = s1.by_owner_id@[a]@;
                    let oldset = s0.by_owner_id@[a]@;
                    assert(s0.by_owner_id@.dom().contains(a)) by {
                        s1.by_owner_id@[a].lemma_props();
                        assert(s1.by_owner_id@[a]@.len() > 0);
                        let k2 = s1set.choose();
                        assert(s1set.contains(k2));
                        assert(s1.sales@.dom().contains(k2));
                        assert(s0.sales@.dom().contains(k2));
                        assert(s0.sales@[k2].owner_id@ == a);
                    }
                    assert(s1set.subset_of(oldset)) by {
                        assert forall|k2: (Seq<char>, Seq<char>)| #[trigger] s1set.contains(
                            k2,
                        ) implies oldset.contains(k2) by {
                            assert(s1.sales@.dom().contains(k2));
                            assert(s1.sales@[k2].owner_id@ == a);
                            assert(s0.sales@.dom().contains(k2));
                            assert(s0.sales@[k2] == s1.sales@[k2]);
                        }
                    }
                    s0.by_owner_id@[a].lemma_props();
                    s1.by_owner_id@[a].lemma_props();
                    vstd::set_lib::lemma_len_subset(s1set, oldset);
                    assert(s0.spec_balance_of(a) >= oldset.len() * STORAGE_PER_SALE);
                    assert(s1set.len() * STORAGE_PER_SALE <= oldset.len() * STORAGE_PER_SALE)
                        by (nonlinear_arith)
                        requires
                            s1set.len() <= oldset.len(),
                            0 < STORAGE_PER_SALE,
                    ;
                }
            }
        }
        Ok(())
    }
}

} // verus!
