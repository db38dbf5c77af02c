//! The marketplace: sale listings, their two secondary indexes, and the
//! storage-rent ledger that gates how many listings an account may hold.
//!
//! A sale is keyed by the pair of the token's origin registry and the token
//! id.  The well-formedness invariant ties the listing map to both indexes
//! in both directions, and states the rent rule: every account's prepaid
//! balance covers its active listings at the per-listing rent.  Every entry
//! point requires and re-establishes this invariant, and a rejected call
//! leaves the whole state untouched.

use vstd::prelude::*;
use crate::common::ContractError;
use crate::common::STORAGE_PER_SALE;
use crate::common::TransferAction;
use crate::pair_map::PairMap;
use crate::pair_set::PairSet;
use crate::str_map::StrMap;
use crate::str_set::StrSet;

verus! {

/// A marketplace listing.
#[derive(Debug)]
pub struct Sale {
    /// The account that listed the token and owns it in the origin
    /// registry.
    pub owner_id: String,
    /// The approval id snapshot taken from the notification that created
    /// the listing.
    pub approval_id: u64,
    /// The origin registry holding the token.
    pub nft_contract_id: String,
    pub token_id: String,
    /// The asking price.
    pub sale_conditions: u128,
}

impl Sale {
    /// An equal copy.
    pub fn duplicate(&self) -> (r: Self)
        ensures
            r == *self,
    {
        Sale {
            owner_id: self.owner_id.clone(),
            approval_id: self.approval_id,
            nft_contract_id: self.nft_contract_id.clone(),
            token_id: self.token_id.clone(),
            sale_conditions: self.sale_conditions,
        }
    }
}

/// The marketplace.
#[derive(Debug)]
pub struct Contract {
    /// The account that administers this marketplace.
    pub owner_id: String,
    /// (origin registry, token id), to the listing.
    pub sales: PairMap<Sale>,
    /// Listing owner, to the keys of the listings it holds.
    pub by_owner_id: StrMap<PairSet>,
    /// Origin registry, to the token ids it has listed here.
    pub by_contract_id: StrMap<StrSet>,
    /// Account, to its prepaid storage-rent balance.
    pub storage_deposits: StrMap<u128>,
}

impl Contract {
    /// The prepaid balance of `a`.
    pub open spec fn spec_balance_of(&self, a: Seq<char>) -> int {
        if self.storage_deposits@.dom().contains(a) {
            self.storage_deposits@[a] as int
        } else {
            0
        }
    }

    /// How many listings `a` holds.
    pub open spec fn spec_listing_count(&self, a: Seq<char>) -> int {
        if self.by_owner_id@.dom().contains(a) {
            self.by_owner_id@[a]@.len() as int
        } else {
            0
        }
    }

    /// A listing's key fields agree with the key it is stored under.
    pub open spec fn sales_fields_ok(&self) -> bool {
        forall|k: (Seq<char>, Seq<char>)|
            #[trigger] self.sales@.dom().contains(k) ==> self.sales@[k].nft_contract_id@ == k.0
                && self.sales@[k].token_id@ == k.1
    }

    /// The listing map and the owner index agree in both directions, and
    /// index entries are never empty.
    pub open spec fn owner_index_ok(&self) -> bool {
        &&& forall|k: (Seq<char>, Seq<char>)|
            #[trigger] self.sales@.dom().contains(k) ==> self.by_owner_id@.dom().contains(
                self.sales@[k].owner_id@,
            ) && self.by_owner_id@[self.sales@[k].owner_id@]@.contains(k)
        &&& forall|o: Seq<char>|
            #[trigger] self.by_owner_id@.dom().contains(o) ==> self.by_owner_id@[o].wf()
                && self.by_owner_id@[o]@.len() > 0
        &&& forall|o: Seq<char>, k: (Seq<char>, Seq<char>)|
            self.by_owner_id@.dom().contains(o) && #[trigger] self.by_owner_id@[o]@.contains(k)
                ==> self.sales@.dom().contains(k) && self.sales@[k].owner_id@ == o
    }

    /// The listing map and the origin index agree in both directions, and
    /// index entries are never empty.
    pub open spec fn contract_index_ok(&self) -> bool {
        &&& forall|k: (Seq<char>, Seq<char>)|
            #[trigger] self.sales@.dom().contains(k) ==> self.by_contract_id@.dom().contains(k.0)
                && self.by_contract_id@[k.0]@.contains(k.1)
        &&& forall|c: Seq<char>|
            #[trigger] self.by_contract_id@.dom().contains(c) ==> self.by_contract_id@[c].wf()
                && self.by_contract_id@[c]@.len() > 0
        &&& forall|c: Seq<char>, t: Seq<char>|
            self.by_contract_id@.dom().contains(c) && #[trigger] self.by_contract_id@[c]@.contains(
                t,
            ) ==> self.sales@.dom().contains((c, t))
    }

    /// Every account's prepaid balance covers its active listings.
    pub open spec fn rent_ok(&self) -> bool {
        forall|a: Seq<char>|
            #[trigger] self.by_owner_id@.dom().contains(a) ==> self.spec_balance_of(a)
                >= self.by_owner_id@[a]@.len() * STORAGE_PER_SALE
    }

    /// The marketplace's invariant.
    pub open spec fn wf(&self) -> bool {
        &&& self.sales.wf()
        &&& self.by_owner_id.wf()
        &&& self.by_contract_id.wf()
        &&& self.storage_deposits.wf()
        &&& self.sales_fields_ok()
        &&& self.owner_index_ok()
        &&& self.contract_index_ok()
        &&& self.rent_ok()
    }

    /// An empty marketplace administered by `owner_id`.
    pub fn new(owner_id: String) -> (r: Self)
        ensures
            r.wf(),
            r.owner_id == owner_id,
            r.sales@ == Map::<(Seq<char>, Seq<char>), Sale>::empty(),
            r.sales.kv() == Seq::<((String, String), Sale)>::empty(),
            r.by_owner_id@ == Map::<Seq<char>, PairSet>::empty(),
            r.by_contract_id@ == Map::<Seq<char>, StrSet>::empty(),
            r.storage_deposits@ == Map::<Seq<char>, u128>::empty(),
    {
        Contract {
            owner_id,
            sales: PairMap::new(),
            by_owner_id: StrMap::new(),
            by_contract_id: StrMap::new(),
            storage_deposits: StrMap::new(),
        }
    }

    /// Credits an attached payment to an account's rent balance (the
    /// caller's, unless another target is named).  The payment must reach
    /// the per-listing minimum.  A rejected call leaves the ledger
    /// untouched.
    pub fn storage_deposit(
        &mut self,
        account_id: Option<String>,
        predecessor_id: &String,
        attached_deposit: u128,
    ) -> (r: Result<(), ContractError>)
        requires
            old(self).wf(),
            old(self).spec_balance_of(
                match account_id {
                    Some(a) => a@,
                    None => predecessor_id@,
                },
            ) + attached_deposit <= u128::MAX,
        ensures
            final(self).wf(),
            r is Ok <==> attached_deposit >= STORAGE_PER_SALE,
            ({
                let target = (match account_id {
                    Some(a) => a@,
                    None => predecessor_id@,
                });
                match r {
                    Ok(u) => {
                        &&& final(self).storage_deposits@ == old(self).storage_deposits@.insert(
                            target,
                            (old(self).spec_balance_of(target) + attached_deposit) as u128,
                        )
                        &&& final(self).sales == old(self).sales
                        &&& final(self).by_owner_id == old(self).by_owner_id
                        &&& final(self).by_contract_id == old(self).by_contract_id
                    },
                    Err(e) => *final(self) == *old(self) && e
                        == ContractError::InsufficientFunds,
                }
            }),
            final(self).owner_id == old(self).owner_id,
    {
        if attached_deposit < STORAGE_PER_SALE {
            return Err(ContractError::InsufficientFunds);
        }
        let storage_account_id: String = match account_id {
            Some(a) => a,
            None => predecessor_id.clone(),
        };
        let balance: u128 = match self.storage_deposits.get(&storage_account_id) {
            Some(b) => *b,
            None => 0,
        };
        let new_balance: u128 = balance + attached_deposit;
        self.storage_deposits.insert(storage_account_id, new_balance);
        proof {
            assert forall|a: Seq<char>| #[trigger] self.by_owner_id@.dom().contains(a) implies
                self.spec_balance_of(a) >= self.by_owner_id@[a]@.len() * STORAGE_PER_SALE by {
                assert(old(self).spec_balance_of(a) >= old(self).by_owner_id@[a]@.len()
                    * STORAGE_PER_SALE);
                assert(self.spec_balance_of(a) >= old(self).spec_balance_of(a));
            }
        }
        Ok(())
    }

    /// Pays back everything the caller's rent balance holds beyond what its
    /// active listings require, keeping exactly the required amount locked.
    /// Requires exactly one yocto-unit attached.  The balance left behind
    /// always still covers the listings.
    pub fn storage_withdraw(&mut self, predecessor_id: &String, attached_deposit: u128) -> (r:
        Result<Option<TransferAction>, ContractError>)
        requires
            old(self).wf(),
        ensures
            final(self).wf(),
            r is Ok <==> attached_deposit == 1,
            match r {
                Ok(refund) => {
                    let amount = old(self).spec_balance_of(predecessor_id@);
                    let required = old(self).spec_listing_count(predecessor_id@)
                        * STORAGE_PER_SALE;
                    let diff = amount - required;
                    &&& (if required > 0 {
                        final(self).storage_deposits@ == old(self).storage_deposits@.insert(
                            predecessor_id@,
                            required as u128,
                        )
                    } else {
                        final(self).storage_deposits@ == old(self).storage_deposits@.remove(
                            predecessor_id@,
                        )
                    })
                    &&& final(self).spec_balance_of(predecessor_id@) == required
                    &&& (if diff > 0 {
                        refund matches Some(a) && a.receiver_id == *predecessor_id && a.amount
                            == diff
                    } else {
                        refund is None
                    })
                    &&& final(self).sales == old(self).sales
                    &&& final(self).by_owner_id == old(self).by_owner_id
                    &&& final(self).by_contract_id == old(self).by_contract_id
                },
                Err(e) => *final(self) == *old(self) && e == ContractError::InvalidArgument,
            },
            final(self).owner_id == old(self).owner_id,
    {
        if attached_deposit != 1 {
            return Err(ContractError::InvalidArgument);
        }
        let amount: u128 = match self.storage_deposits.remove(predecessor_id) {
            Some(b) => b,
            None => 0,
        };
        let cnt: usize = match self.by_owner_id.get(predecessor_id) {
            Some(s) => {
                proof {
                    s.lemma_props();
                }
                s.len()
            },
            None => 0,
        };
        proof {
            if cnt > 0 {
                assert(old(self).by_owner_id@.dom().contains(predecessor_id@));
                assert(old(self).spec_balance_of(predecessor_id@) >= old(self).by_owner_id@[predecessor_id@]@.len() * STORAGE_PER_SALE);
                assert(amount == old(self).spec_balance_of(predecessor_id@));
            }
        }
        let required: u128 = (cnt as u128) * STORAGE_PER_SALE;
        proof {
            assert(amount >= required);
        }
        if amount < required {
            return Err(ContractError::InsufficientFunds);
        }
        let diff: u128 = amount - required;
        if required > 0 {
            self.storage_deposits.insert(predecessor_id.clone(), required);
        }
        proof {
            assert forall|a: Seq<char>| #[trigger] self.by_owner_id@.dom().contains(a) implies
                self.spec_balance_of(a) >= self.by_owner_id@[a]@.len() * STORAGE_PER_SALE by {
                assert(old(self).spec_balance_of(a) >= old(self).by_owner_id@[a]@.len()
                    * STORAGE_PER_SALE);
                if a != predecessor_id@ {
                    assert(self.spec_balance_of(a) == old(self).spec_balance_of(a));
                }
            }
        }
        if diff > 0 {
            Ok(Some(TransferAction { receiver_id: predecessor_id.clone(), amount: diff }))
        } else {
            Ok(None)
        }
    }

    /// The rent one listing must be covered by.
    pub fn storage_minimun_balance(&self) -> (r: u128)
        ensures
            r == STORAGE_PER_SALE,
    {
        STORAGE_PER_SALE
    }

    /// The prepaid balance of an account (the caller's, unless another is
    /// named).
    pub fn storage_balance_of(&self, account_id: Option<String>, predecessor_id: &String) -> (r:
        u128)
        requires
            self.wf(),
        ensures
            r == self.spec_balance_of(
                match account_id {
                    Some(a) => a@,
                    None => predecessor_id@,
                },
            ),
    {
        let target: String = match account_id {
            Some(a) => a,
            None => predecessor_id.clone(),
        };
        match self.storage_deposits.get(&target) {
            Some(b) => *b,
            None => 0,
        }
    }
}

/// An account's prepaid balance never falls below what its active listings
/// require: the rent rule is an invariant of every marketplace state.
pub proof fn lemma_rent_covered(c: &Contract, a: Seq<char>)
    requires
        c.wf(),
    ensures
        c.spec_balance_of(a) >= c.spec_listing_count(a) * STORAGE_PER_SALE,
{
    if !c.by_owner_id@.dom().contains(a) {
        assert(c.spec_listing_count(a) == 0);
        if c.storage_deposits@.dom().contains(a) {
        }
    }
}

} // verus!
