//! Listing management and the purchase settlement protocol.
//!
//! A purchase removes the listing before anything else, so the same listing
//! can never settle twice; the payout call to the token's origin registry
//! is scheduled with the buyer's attached amount, and the resolver later
//! validates the returned split: between one and the maximum number of
//! payees, no payee twice, and a total within one unit of the amount paid.
//! A valid split is disbursed entry by entry; anything else refunds the
//! buyer in full — never both, never neither.

use vstd::prelude::*;
use crate::codec::parse_payout;
use crate::codec::payout_view;
use crate::codec::spec_parse_payout;
use crate::common::ContractError;
use crate::common::MAX_PAYOUT_ENTRIES;
use crate::common::RemoteResult;
use crate::common::STORAGE_PER_SALE;
use crate::common::TransferAction;
use crate::internal::lemma_set_two;
use crate::market_contract::Contract;
use crate::market_contract::Sale;
use crate::pair_set::PairSet;
use crate::str_set::StrSet;

verus! {

/// The royalty split a settlement returns: each payee with its share.
#[derive(Debug)]
pub struct Payout {
    pub payout: Vec<(String, u128)>,
}

/// The settlement interface of a token's origin registry; invoked through
/// the host, not locally.
pub trait NFTContract {
    fn nft_transfer_payout(
        &mut self,
        receiver_id: String,
        token_id: String,
        approval_id: u64,
        memo: String,
        balance: u128,
        max_len_payout: u32,
    ) -> Payout;
}

/// The resolver interface of the marketplace itself; invoked by the host
/// when the payout call settles.
pub trait MarketContract {
    fn resolve_purchase(
        &mut self,
        buyer_id: String,
        price: u128,
        outcome: RemoteResult,
    ) -> (u128, Vec<TransferAction>);
}

/// The scheduled settlement call to the token's origin registry.
#[derive(Debug)]
pub struct PayoutCall {
    /// The origin registry asked to transfer the token and compute the
    /// split.
    pub nft_contract_id: String,
    /// The buyer, who receives the token.
    pub receiver_id: String,
    pub token_id: String,
    /// The approval id snapshot the listing carried.
    pub approval_id: u64,
    pub memo: String,
    /// The amount being settled.
    pub amount: u128,
    /// The largest payee count the split may name.
    pub max_len_payout: u32,
}

/// The resolver registration riding behind the settlement call.
#[derive(Debug)]
pub struct PurchaseResolution {
    pub buyer_id: String,
    pub price: u128,
}

/// What a purchase schedules.
#[derive(Debug)]
pub struct PurchaseReceipt {
    pub payout_call: PayoutCall,
    pub resolution: PurchaseResolution,
}

/// The total of a split's shares.
pub open spec fn sum_amounts(es: Seq<(Seq<char>, u128)>) -> int
    decreases es.len(),
{
    if es.len() == 0 {
        0
    } else {
        sum_amounts(es.drop_last()) + es.last().1
    }
}

/// No payee is named twice.
pub open spec fn distinct_payees(es: Seq<(Seq<char>, u128)>) -> bool {
    forall|i: int, j: int|
        0 <= i < j < es.len() ==> (#[trigger] es[i]).0 != (#[trigger] es[j]).0
}

/// A split the resolver accepts for a paid amount: between one payee and
/// the maximum, no payee twice, and a total equal to the amount or one
/// unit below it.
pub open spec fn spec_valid_payout(price: u128, es: Seq<(Seq<char>, u128)>) -> bool {
    &&& 1 <= es.len() <= MAX_PAYOUT_ENTRIES
    &&& distinct_payees(es)
    &&& (sum_amounts(es) == price || sum_amounts(es) + 1 == price)
}

/// The split the resolver disburses for this outcome, if any: the payout
/// message parsed and found valid for the paid amount.
pub open spec fn spec_resolve_payout(price: u128, outcome: RemoteResult) -> Option<
    Seq<(Seq<char>, u128)>,
> {
    match outcome {
        RemoteResult::Succeeded(v) => match spec_parse_payout(v@) {
            Some(es) => if spec_valid_payout(price, es) {
                Some(es)
            } else {
                None
            },
            None => None,
        },
        RemoteResult::Failed => None,
    }
}

/// Any split the resolver disburses sums to the paid amount or one unit
/// below it, names between one and the maximum number of payees, and names
/// no payee twice; every other outcome is refunded to the buyer in full,
/// and `resolve_purchase` commits to exactly one of the two — never both,
/// never neither.
pub proof fn lemma_disbursed_split_is_valid(price: u128, outcome: RemoteResult)
    ensures
        match spec_resolve_payout(price, outcome) {
            Some(es) => {
                &&& sum_amounts(es) == price || sum_amounts(es) + 1 == price
                &&& distinct_payees(es)
                &&& 1 <= es.len() <= MAX_PAYOUT_ENTRIES
            },
            None => true,
        },
{
}

impl Contract {
    /// Removes the listing under `(nft_contract_id, token_id)` together
    /// with both of its index entries.  A missing listing leaves the
    /// marketplace untouched.
    pub(crate) fn internal_remove_sale(
        &mut self,
        nft_contract_id: &String,
        token_id: &String,
    ) -> (r: Result<Sale, ContractError>)
        requires
            old(self).wf(),
        ensures
            final(self).wf(),
            r is Ok <==> old(self).sales@.dom().contains((nft_contract_id@, token_id@)),
            match r {
                Ok(sale) => {
                    &&& sale == old(self).sales@[(nft_contract_id@, token_id@)]
                    &&& final(self).sales@ == old(self).sales@.remove(
                        (nft_contract_id@, token_id@),
                    )
                    &&& final(self).storage_deposits == old(self).storage_deposits
                },
                Err(e) => *final(self) == *old(self) && e == ContractError::NotFound,
            },
            final(self).owner_id == old(self).owner_id,
    {
        broadcast use vstd::set::group_set_axioms;

        let ghost key = (nft_contract_id@, token_id@);
        let sale: Sale = match self.sales.remove(nft_contract_id, token_id) {
            None => {
                return Err(ContractError::NotFound);
            },
            Some(s) => s,
        };
        let ghost s0 = *old(self);
        proof {
            assert(s0.sales@.dom().contains(key));
            assert(sale == s0.sales@[key]);
            assert(s0.by_owner_id@.dom().contains(sale.owner_id@));
            assert(s0.by_owner_id@[sale.owner_id@]@.contains(key));
            s0.by_owner_id@[sale.owner_id@].lemma_props();
            assert(s0.by_contract_id@.dom().contains(key.0));
            assert(s0.by_contract_id@[key.0]@.contains(key.1));
            s0.by_contract_id@[key.0].lemma_props();
        }
        let mut oset: PairSet = match self.by_owner_id.remove(&sale.owner_id) {
            Some(s) => s,
            None => {
                proof {
                    assert(false);
                }
                PairSet::new()
            },
        };
        oset.remove(nft_contract_id, token_id);
        proof {
            oset.lemma_props();
        }
        if !oset.is_empty() {
            self.by_owner_id.insert(sale.owner_id.clone(), oset);
        }
        let mut cset: StrSet = match self.by_contract_id.remove(nft_contract_id) {
            Some(s) => s,
            None => {
                proof {
                    assert(false);
                }
                StrSet::new()
            },
        };
        cset.remove(token_id);
        proof {
            cset.lemma_props();
        }
        if !cset.is_empty() {
            self.by_contract_id.insert(nft_contract_id.clone(), cset);
        }
        proof {
            let so = sale.owner_id@;
            assert(self.sales@ =~= s0.sales@.remove(key));
            // Owner index: the listing owner's entry lost exactly this key;
            // everyone else is untouched.
            assert forall|k2: (Seq<char>, Seq<char>)|
                #[trigger] self.sales@.dom().contains(k2) implies {
                &&& self.by_owner_id@.dom().contains(self.sales@[k2].owner_id@)
                &&& self.by_owner_id@[self.sales@[k2].owner_id@]@.contains(k2)
                &&& self.by_contract_id@.dom().contains(k2.0)
                &&& self.by_contract_id@[k2.0]@.contains(k2.1)
            } by {
                assert(k2 != key);
                assert(self.sales@[k2] == s0.sales@[k2]);
                let o2 = s0.sales@[k2].owner_id@;
                assert(s0.by_owner_id@.dom().contains(o2));
                assert(s0.by_owner_id@[o2]@.contains(k2));
                if o2 == so {
                    lemma_set_two(s0.by_owner_id@[so]@, k2, key);
                    assert(self.by_owner_id@.dom().contains(o2));
                    assert(self.by_owner_id@[o2]@.contains(k2));
                } else {
                    assert(self.by_owner_id@[o2] == s0.by_owner_id@[o2]);
                }
                assert(s0.by_contract_id@.dom().contains(k2.0));
                assert(s0.by_contract_id@[k2.0]@.contains(k2.1));
                if k2.0 == key.0 {
                    assert(k2.1 != key.1);
                    lemma_set_two(s0.by_contract_id@[key.0]@, k2.1, key.1);
                    assert(self.by_contract_id@.dom().contains(k2.0));
                    assert(self.by_contract_id@[k2.0]@.contains(k2.1));
                } else {
                    assert(self.by_contract_id@[k2.0] == s0.by_contract_id@[k2.0]);
                }
            }
            assert forall|o: Seq<char>, k2: (Seq<char>, Seq<char>)|
                self.by_owner_id@.dom().contains(o) && #[trigger] self.by_owner_id@[o]@.contains(
                    k2,
                ) implies {
                &&& self.sales@.dom().contains(k2)
                &&& self.sales@[k2].owner_id@ == o
            } by {
                if o == so {
                    assert(s0.by_owner_id@[so]@.contains(k2) && k2 != key);
                } else {
                    assert(self.by_owner_id@[o] == s0.by_owner_id@[o]);
                    assert(s0.by_owner_id@[o]@.contains(k2));
                    assert(s0.sales@[k2].owner_id@ == o);
                    assert(k2 != key);
                }
            }
            assert forall|c: Seq<char>, t: Seq<char>|
                self.by_contract_id@.dom().contains(c)
                    && #[trigger] self.by_contract_id@[c]@.contains(t) implies self.sales@.dom().contains(
                (c, t),
            ) by {
                if c == key.0 {
                    assert(s0.by_contract_id@[c]@.contains(t) && t != key.1);
                    assert((c, t) != key);
                } else {
                    assert(self.by_contract_id@[c] == s0.by_contract_id@[c]);
                    assert(s0.by_contract_id@[c]@.contains(t));
                    assert((c, t) != key);
                }
            }
            // Rent: every index entry shrank or stayed; balances did not move.
            assert forall|a: Seq<char>| #[trigger] self.by_owner_id@.dom().contains(a) implies
                self.spec_balance_of(a) >= self.by_owner_id@[a]@.len() * STORAGE_PER_SALE by {
                assert(s0.by_owner_id@.dom().contains(a));
                assert(self.spec_balance_of(a) == s0.spec_balance_of(a));
                assert(s0.spec_balance_of(a) >= s0.by_owner_id@[a]@.len() * STORAGE_PER_SALE);
                assert(self.by_owner_id@[a]@.len() <= s0.by_owner_id@[a]@.len());
                assert(self.by_owner_id@[a]@.len() * STORAGE_PER_SALE <= s0.by_owner_id@[a]@.len()
                    * STORAGE_PER_SALE) by (nonlinear_arith)
                    requires
                        self.by_owner_id@[a]@.len() <= s0.by_owner_id@[a]@.len(),
                        0 < STORAGE_PER_SALE,
                ;
            }
        }
        Ok(sale)
    }

    /// Delists `(nft_contract_id, token_id)`.  Only the listing's owner may
    /// do it, with exactly one yocto-unit attached.  A rejected call leaves
    /// the marketplace untouched.
    pub fn remove_sale(
        &mut self,
        nft_contract_id: String,
        token_id: String,
        predecessor_id: &String,
        attached_deposit: u128,
    ) -> (r: Result<(), ContractError>)
        requires
            old(self).wf(),
        ensures
            final(self).wf(),
            r is Ok <==> (attached_deposit == 1 && old(self).sales@.dom().contains(
                (nft_contract_id@, token_id@),
            ) && old(self).sales@[(nft_contract_id@, token_id@)].owner_id@ == predecessor_id@),
            match r {
                Ok(u) => {
                    &&& final(self).sales@ == old(self).sales@.remove(
                        (nft_contract_id@, token_id@),
                    )
                    &&& final(self).storage_deposits == old(self).storage_deposits
                },
                Err(e) => *final(self) == *old(self) && (if attached_deposit != 1 {
                    e == ContractError::InvalidArgument
                } else if !old(self).sales@.dom().contains((nft_contract_id@, token_id@)) {
                    e == ContractError::NotFound
                } else {
                    e == ContractError::Authorization
                }),
            },
            final(self).owner_id == old(self).owner_id,
    {
        if attached_deposit != 1 {
            return Err(ContractError::InvalidArgument);
        }
        match self.sales.get(&nft_contract_id, &token_id) {
            Some(sale) => {
                if !(*predecessor_id == sale.owner_id) {
                    return Err(ContractError::Authorization);
                }
            },
            None => {
                return Err(ContractError::NotFound);
            },
        }
        match self.internal_remove_sale(&nft_contract_id, &token_id) {
            Ok(s) => Ok(()),
            Err(e) => {
                proof {
                    assert(false);
                }
                Err(e)
            },
        }
    }

    /// Re-prices the listing under `(nft_contract_id, token_id)`.  Only the
    /// listing's owner may do it, with exactly one yocto-unit attached.  A
    /// rejected call leaves the marketplace untouched.
    pub fn update_price(
        &mut self,
        nft_contract_id: String,
        token_id: String,
        price: u128,
        predecessor_id: &String,
        attached_deposit: u128,
    ) -> (r: Result<(), ContractError>)
        requires
            old(self).wf(),
        ensures
            final(self).wf(),
            r is Ok <==> (attached_deposit == 1 && old(self).sales@.dom().contains(
                (nft_contract_id@, token_id@),
            ) && old(self).sales@[(nft_contract_id@, token_id@)].owner_id@ == predecessor_id@),
            match r {
                Ok(u) => {
                    let key = (nft_contract_id@, token_id@);
                    &&& final(self).sales@.dom() == old(self).sales@.dom()
                    &&& final(self).sales@[key].sale_conditions == price
                    &&& final(self).sales@[key].owner_id == old(self).sales@[key].owner_id
                    &&& final(self).sales@[key].approval_id == old(self).sales@[key].approval_id
                    &&& final(self).sales@[key].nft_contract_id == old(self).sales@[key].nft_contract_id
                    &&& final(self).sales@[key].token_id == old(self).sales@[key].token_id
                    &&& forall|k2: (Seq<char>, Seq<char>)|
                        k2 != key && old(self).sales@.dom().contains(k2) ==> final(self).sales@[k2] == (#[trigger] old(self).sales@[k2])
                    &&& final(self).by_owner_id == old(self).by_owner_id
                    &&& final(self).by_contract_id == old(self).by_contract_id
                    &&& final(self).storage_deposits == old(self).storage_deposits
                },
                Err(e) => *final(self) == *old(self) && (if attached_deposit != 1 {
                    e == ContractError::InvalidArgument
                } else if !old(self).sales@.dom().contains((nft_contract_id@, token_id@)) {
                    e == ContractError::NotFound
                } else {
                    e == ContractError::Authorization
                }),
            },
            final(self).owner_id == old(self).owner_id,
    {
        if attached_deposit != 1 {
            return Err(ContractError::InvalidArgument);
        }
        match self.sales.get(&nft_contract_id, &token_id) {
            Some(sale) => {
                if !(*predecessor_id == sale.owner_id) {
                    return Err(ContractError::Authorization);
                }
            },
            None => {
                return Err(ContractError::NotFound);
            },
        }
        let ghost key = (nft_contract_id@, token_id@);
        let mut sale: Sale = match self.sales.remove(&nft_contract_id, &token_id) {
            Some(s) => s,
            None => {
                proof {
                    assert(false);
                }
                return Err(ContractError::NotFound);
            },
        };
        sale.sale_conditions = price;
        self.sales.insert(nft_contract_id, token_id, sale);
        proof {
            let s0 = *old(self);
            assert(self.sales@ =~= s0.sales@.insert(key, self.sales@[key]));
            assert(self.sales@.dom() =~= s0.sales@.dom());
            assert(self.sales@[key].owner_id == s0.sales@[key].owner_id);
            assert forall|k2: (Seq<char>, Seq<char>)|
                #[trigger] self.sales@.dom().contains(k2) implies {
                &&& self.by_owner_id@.dom().contains(self.sales@[k2].owner_id@)
                &&& self.by_owner_id@[self.sales@[k2].owner_id@]@.contains(k2)
                &&& self.sales@[k2].nft_contract_id@ == k2.0
                &&& self.sales@[k2].token_id@ == k2.1
            } by {
                if k2 != key {
                    assert(self.sales@[k2] == s0.sales@[k2]);
                }
            }
            assert forall|o: Seq<char>, k2: (Seq<char>, Seq<char>)|
                self.by_owner_id@.dom().contains(o) && #[trigger] self.by_owner_id@[o]@.contains(
                    k2,
                ) implies {
                &&& self.sales@.dom().contains(k2)
                &&& self.sales@[k2].owner_id@ == o
            } by {
                assert(s0.sales@[k2].owner_id@ == o);
                if k2 != key {
                    assert(self.sales@[k2] == s0.sales@[k2]);
                }
            }
        }
        Ok(())
    }

    /// A buyer's bid on `(nft_contract_id, token_id)`: the attached payment
    /// must be positive and at least the asking price, and the buyer must
    /// not be the listing's owner.  Settles at the attached amount — any
    /// excess over the asking price flows into the payout split rather than
    /// back to the buyer.  A rejected call leaves the marketplace untouched
    /// and schedules nothing; in particular, a listing already purchased is
    /// gone, so bidding on it again reports it missing.
    pub fn offer(
        &mut self,
        nft_contract_id: String,
        token_id: String,
        predecessor_id: &String,
        attached_deposit: u128,
    ) -> (r: Result<PurchaseReceipt, ContractError>)
        requires
            old(self).wf(),
        ensures
            final(self).wf(),
            r is Ok <==> (attached_deposit > 0 && old(self).sales@.dom().contains(
                (nft_contract_id@, token_id@),
            ) && old(self).sales@[(nft_contract_id@, token_id@)].owner_id@ != predecessor_id@
                && attached_deposit >= old(self).sales@[(nft_contract_id@,
                token_id@,
            )].sale_conditions),
            match r {
                Ok(receipt) => {
                    let key = (nft_contract_id@, token_id@);
                    let sale = old(self).sales@[key];
                    &&& final(self).sales@ == old(self).sales@.remove(key)
                    &&& final(self).storage_deposits == old(self).storage_deposits
                    &&& receipt.payout_call.nft_contract_id == nft_contract_id
                    &&& receipt.payout_call.receiver_id == *predecessor_id
                    &&& receipt.payout_call.token_id == token_id
                    &&& receipt.payout_call.approval_id == sale.approval_id
                    &&& receipt.payout_call.amount == attached_deposit
                    &&& receipt.payout_call.max_len_payout == MAX_PAYOUT_ENTRIES
                    &&& receipt.resolution.buyer_id == *predecessor_id
                    &&& receipt.resolution.price == attached_deposit
                },
                Err(e) => *final(self) == *old(self) && (if attached_deposit == 0 {
                    e == ContractError::InsufficientFunds
                } else if !old(self).sales@.dom().contains((nft_contract_id@, token_id@)) {
                    e == ContractError::NotFound
                } else if old(self).sales@[(nft_contract_id@, token_id@)].owner_id@
                    == predecessor_id@ {
                    e == ContractError::InvalidArgument
                } else {
                    e == ContractError::InsufficientFunds
                }),
            },
            final(self).owner_id == old(self).owner_id,
    {
        if attached_deposit == 0 {
            return Err(ContractError::InsufficientFunds);
        }
        match self.sales.get(&nft_contract_id, &token_id) {
            Some(sale) => {
                if *predecessor_id == sale.owner_id {
                    return Err(ContractError::InvalidArgument);
                }
                if attached_deposit < sale.sale_conditions {
                    return Err(ContractError::InsufficientFunds);
                }
            },
            None => {
                return Err(ContractError::NotFound);
            },
        }
        self.process_purchase(nft_contract_id, token_id, attached_deposit, predecessor_id.clone())
    }

    /// Removes the listing and schedules the settlement: the origin
    /// registry is asked to transfer the token to the buyer and return the
    /// royalty split for the paid amount, and the resolver is registered
    /// behind it.  Removing the listing first is what prevents a second
    /// purchase of the same listing.
    pub fn process_purchase(
        &mut self,
        nft_contract_id: String,
        token_id: String,
        price: u128,
        buyer_id: String,
    ) -> (r: Result<PurchaseReceipt, ContractError>)
        requires
            old(self).wf(),
        ensures
            final(self).wf(),
            r is Ok <==> old(self).sales@.dom().contains((nft_contract_id@, token_id@)),
            match r {
                Ok(receipt) => {
                    let key = (nft_contract_id@, token_id@);
                    let sale = old(self).sales@[key];
                    &&& final(self).sales@ == old(self).sales@.remove(key)
                    &&& final(self).storage_deposits == old(self).storage_deposits
                    &&& receipt.payout_call.nft_contract_id == nft_contract_id
                    &&& receipt.payout_call.receiver_id == buyer_id
                    &&& receipt.payout_call.token_id == token_id
                    &&& receipt.payout_call.approval_id == sale.approval_id
                    &&& receipt.payout_call.memo@ == "Payout from market contract"@
                    &&& receipt.payout_call.amount == price
                    &&& receipt.payout_call.max_len_payout == MAX_PAYOUT_ENTRIES
                    &&& receipt.resolution.buyer_id == buyer_id
                    &&& receipt.resolution.price == price
                },
                Err(e) => *final(self) == *old(self) && e == ContractError::NotFound,
            },
            final(self).owner_id == old(self).owner_id,
    {
        let sale: Sale = match self.internal_remove_sale(&nft_contract_id, &token_id) {
            Ok(s) => s,
            Err(e) => {
                return Err(e);
            },
        };
        Ok(
            PurchaseReceipt {
                payout_call: PayoutCall {
                    nft_contract_id,
                    receiver_id: buyer_id.clone(),
                    token_id,
                    approval_id: sale.approval_id,
                    memo: String::from_str("Payout from market contract"),
                    amount: price,
                    max_len_payout: 10,
                },
                resolution: PurchaseResolution { buyer_id, price },
            },
        )
    }

    /// Settles a purchase after the payout call settled.  A successful call
    /// whose split parses and is valid for the paid amount is disbursed,
    /// each payee paid its share exactly once; any failure, malformed
    /// split, or invalid split refunds the buyer the full amount.  Returns
    /// the settled amount with the transfers to perform.
    pub fn resolve_purchase(&self, buyer_id: String, price: u128, outcome: RemoteResult) -> (r: (
        u128,
        Vec<TransferAction>,
    ))
        ensures
            r.0 == price,
            match spec_resolve_payout(price, outcome) {
                Some(es) => {
                    &&& r.1@.len() == es.len()
                    &&& forall|i: int|
                        0 <= i < es.len() ==> (#[trigger] r.1@[i]).receiver_id@ == es[i].0
                            && r.1@[i].amount == es[i].1
                },
                None => r.1@.len() == 1 && r.1@[0].receiver_id == buyer_id && r.1@[0].amount
                    == price,
            },
    {
        let entries: Vec<(String, u128)> = match &outcome {
            RemoteResult::Succeeded(value) => match parse_payout(value) {
                Some(es) => es,
                None => {
                    return (price, refund_all(buyer_id, price));
                },
            },
            RemoteResult::Failed => {
                return (price, refund_all(buyer_id, price));
            },
        };
        let ghost es = payout_view(entries@);
        proof {
            assert(outcome matches RemoteResult::Succeeded(v) && spec_parse_payout(v@) == Some(
                es,
            ));
        }
        let n = entries.len();
        if n == 0 || n > MAX_PAYOUT_ENTRIES {
            return (price, refund_all(buyer_id, price));
        }
        // No payee twice.
        let mut i: usize = 0;
        while i < n
            invariant
                i <= n,
                n == entries@.len(),
                es == payout_view(entries@),
                1 <= n <= MAX_PAYOUT_ENTRIES,
                outcome matches RemoteResult::Succeeded(v) && spec_parse_payout(v@) == Some(
                    es,
                ),
                forall|p: int, q: int| 0 <= p < q < n && p < i ==> es[p].0 != es[q].0,
            decreases n - i,
        {
            let mut j: usize = i + 1;
            while j < n
                invariant
                    i < j <= n,
                    n == entries@.len(),
                    es == payout_view(entries@),
                    1 <= n <= MAX_PAYOUT_ENTRIES,
                    outcome matches RemoteResult::Succeeded(v) && spec_parse_payout(v@) == Some(
                        es,
                    ),
                    forall|q: int| i < q < j ==> es[i as int].0 != es[q].0,
                decreases n - j,
            {
                if entries[i].0 == entries[j].0 {
                    proof {
                        assert(es[i as int].0 == es[j as int].0);
                        assert(!distinct_payees(es));
                    }
                    return (price, refund_all(buyer_id, price));
                }
                j += 1;
            }
            i += 1;
        }
        proof {
            assert(distinct_payees(es));
        }
        // The shares must add up to the paid amount, within one unit.
        let mut remainder: u128 = price;
        let mut k: usize = 0;
        while k < n
            invariant
                k <= n,
                n == entries@.len(),
                es == payout_view(entries@),
                1 <= n <= MAX_PAYOUT_ENTRIES,
                outcome matches RemoteResult::Succeeded(v) && spec_parse_payout(v@) == Some(
                    es,
                ),
                remainder == price - sum_amounts(es.subrange(0, k as int)),
                sum_amounts(es.subrange(0, k as int)) <= price,
            decreases n - k,
        {
            let amount = entries[k].1;
            proof {
                assert(es.subrange(0, k + 1 as int).drop_last() =~= es.subrange(0, k as int));
                assert(es.subrange(0, k + 1 as int).last() == es[k as int]);
                assert(es[k as int].1 == entries@[k as int].1);
            }
            if remainder < amount {
                proof {
                    lemma_sum_prefix(es, k + 1 as int);
                    assert(sum_amounts(es) > price);
                }
                return (price, refund_all(buyer_id, price));
            }
            remainder = remainder - amount;
            k += 1;
        }
        proof {
            assert(es.subrange(0, n as int) =~= es);
        }
        if remainder > 1 {
            return (price, refund_all(buyer_id, price));
        }
        // Valid: disburse each share exactly once.
        let mut out: Vec<TransferAction> = Vec::new();
        let mut m: usize = 0;
        while m < n
            invariant
                m <= n,
                n == entries@.len(),
                es == payout_view(entries@),
                out@.len() == m,
                forall|q: int|
                    0 <= q < m ==> (#[trigger] out@[q]).receiver_id@ == es[q].0 && out@[q].amount
                        == es[q].1,
            decreases n - m,
        {
            let receiver = entries[m].0.clone();
            let amount = entries[m].1;
            out.push(TransferAction { receiver_id: receiver, amount });
            m += 1;
        }
        (price, out)
    }
}

/// A full refund of the paid amount to the buyer.
fn refund_all(buyer_id: String, price: u128) -> (r: Vec<TransferAction>)
    ensures
        r@.len() == 1,
        r@[0].receiver_id == buyer_id,
        r@[0].amount == price,
{
    let mut v: Vec<TransferAction> = Vec::new();
    v.push(TransferAction { receiver_id: buyer_id, amount: price });
    v
}

/// Summing a prefix never exceeds summing the whole when shares are
/// non-negative, and dropping the last share removes exactly it.
pub proof fn lemma_sum_prefix(es: Seq<(Seq<char>, u128)>, k: int)
    requires
        0 <= k <= es.len(),
    ensures
        sum_amounts(es.subrange(0, k)) <= sum_amounts(es),
    decreases es.len() - k,
{
    if k == es.len() {
        assert(es.subrange(0, k) =~= es);
    } else {
        lemma_sum_prefix(es, k + 1);
        assert(es.subrange(0, k + 1).drop_last() =~= es.subrange(0, k));
        assert(es.subrange(0, k + 1).last() == es[k]);
    }
}

} // verus!
