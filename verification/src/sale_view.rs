//! Read-only enumeration of listings, with pagination.
//!
//! As with the registry's views, an absent start index means the beginning
//! and an absent limit means a limit of zero.

use vstd::prelude::*;
use crate::market_contract::Contract;
use crate::market_contract::Sale;
use crate::pair_map::pair_view;

verus! {

impl Contract {
    /// How many listings the marketplace holds.
    pub fn get_supply_sales(&self) -> (r: u128)
        requires
            self.wf(),
        ensures
            r == self.sales.kv().len(),
            r == self.sales@.dom().len(),
    {
        proof {
            self.sales.lemma_props();
        }
        self.sales.len() as u128
    }

    /// How many listings `account_id` holds.
    pub fn get_supply_by_owner_id(&self, account_id: String) -> (r: u128)
        requires
            self.wf(),
        ensures
            r == self.spec_listing_count(account_id@),
    {
        match self.by_owner_id.get(&account_id) {
            Some(s) => {
                proof {
                    s.lemma_props();
                }
                s.len() as u128
            },
            None => 0,
        }
    }

    /// How many listings name `contract_id` as the token's origin.
    pub fn get_supply_by_contract_id(&self, contract_id: String) -> (r: u128)
        requires
            self.wf(),
        ensures
            self.by_contract_id@.dom().contains(contract_id@) ==> r
                == self.by_contract_id@[contract_id@]@.len(),
            !self.by_contract_id@.dom().contains(contract_id@) ==> r == 0,
    {
        match self.by_contract_id.get(&contract_id) {
            Some(s) => {
                proof {
                    s.lemma_props();
                }
                s.len() as u128
            },
            None => 0,
        }
    }

    /// The listings, in storage order, starting at `from_index` and at
    /// most `limit` long.
    pub fn get_sales(&self, from_index: Option<u128>, limit: Option<u64>) -> (r: Vec<Sale>)
        requires
            self.wf(),
        ensures
            ({
                let start = (match from_index {
                    Some(x) => x as int,
                    None => 0,
                });
                let lim = (match limit {
                    Some(x) => x as int,
                    None => 0,
                });
                let total = self.sales.kv().len() as int;
                let avail = if start >= total {
                    0
                } else {
                    total - start
                };
                let cnt = if lim < avail {
                    lim
                } else {
                    avail
                };
                &&& r@.len() == cnt
                &&& forall|q: int|
                    0 <= q < cnt ==> (#[trigger] r@[q]) == self.sales.kv()[start + q].1
            }),
    {
        let total: usize = self.sales.len();
        let start128: u128 = match from_index {
            Some(x) => x,
            None => 0,
        };
        let mut out: Vec<Sale> = Vec::new();
        if start128 >= total as u128 {
            return out;
        }
        let start: usize = start128 as usize;
        let avail: usize = total - start;
        let lim: u64 = match limit {
            Some(x) => x,
            None => 0,
        };
        let cnt: usize = if (lim as u128) < (avail as u128) {
            lim as usize
        } else {
            avail
        };
        let mut q: usize = 0;
        while q < cnt
            invariant
                self.wf(),
                q <= cnt,
                start + cnt <= total,
                total == self.sales.kv().len(),
                out@.len() == q,
                forall|p: int| 0 <= p < q ==> (#[trigger] out@[p]) == self.sales.kv()[start + p].1,
            decreases cnt - q,
        {
            let sale = self.sales.entries()[start + q].1.duplicate();
            out.push(sale);
            q += 1;
        }
        out
    }

    /// The listings `account_id` holds, in index order, starting at
    /// `from_index` and at most `limit` long.
    pub fn get_sale_by_owner_id(
        &self,
        account_id: String,
        from_index: Option<u128>,
        limit: Option<u64>,
    ) -> (r: Vec<Sale>)
        requires
            self.wf(),
        ensures
            !self.by_owner_id@.dom().contains(account_id@) ==> r@.len() == 0,
            self.by_owner_id@.dom().contains(account_id@) ==> ({
                let members = self.by_owner_id@[account_id@].members();
                let start = (match from_index {
                    Some(x) => x as int,
                    None => 0,
                });
                let lim = (match limit {
                    Some(x) => x as int,
                    None => 0,
                });
                let total = members.len() as int;
                let avail = if start >= total {
                    0
                } else {
                    total - start
                };
                let cnt = if lim < avail {
                    lim
                } else {
                    avail
                };
                &&& r@.len() == cnt
                &&& forall|q: int|
                    0 <= q < cnt ==> (#[trigger] r@[q]) == self.sales@[pair_view(
                        members[start + q],
                    )]
            }),
    {
        let mut out: Vec<Sale> = Vec::new();
        let keys = match self.by_owner_id.get(&account_id) {
            Some(s) => s,
            None => {
                return out;
            },
        };
        let total: usize = keys.len();
        let start128: u128 = match from_index {
            Some(x) => x,
            None => 0,
        };
        if start128 >= total as u128 {
            return out;
        }
        let start: usize = start128 as usize;
        let avail: usize = total - start;
        let lim: u64 = match limit {
            Some(x) => x,
            None => 0,
        };
        let cnt: usize = if (lim as u128) < (avail as u128) {
            lim as usize
        } else {
            avail
        };
        let mut q: usize = 0;
        while q < cnt
            invariant
                self.wf(),
                q <= cnt,
                start + cnt <= total,
                self.by_owner_id@.dom().contains(account_id@),
                *keys == self.by_owner_id@[account_id@],
                total == keys.members().len(),
                out@.len() == q,
                forall|p: int|
                    0 <= p < q ==> (#[trigger] out@[p]) == self.sales@[pair_view(
                        keys.members()[start + p],
                    )],
            decreases cnt - q,
        {
            let key = keys.item(start + q);
            proof {
                keys.lemma_props();
                assert(self.by_owner_id@[account_id@]@.contains(pair_view(*key)));
                assert(self.sales@.dom().contains(pair_view(*key)));
            }
            let sale = match self.sales.get(&key.0, &key.1) {
                Some(s) => s.duplicate(),
                None => {
                    proof {
                        assert(false);
                    }
                    return out;
                },
            };
            out.push(sale);
            q += 1;
        }
        out
    }

    /// The listings whose tokens originate from `contract_id`, in index
    /// order, starting at `from_index` and at most `limit` long.
    pub fn get_sale_by_contract_id(
        &self,
        contract_id: String,
        from_index: Option<u128>,
        limit: Option<u64>,
    ) -> (r: Vec<Sale>)
        requires
            self.wf(),
        ensures
            !self.by_contract_id@.dom().contains(contract_id@) ==> r@.len() == 0,
            self.by_contract_id@.dom().contains(contract_id@) ==> ({
                let members = self.by_contract_id@[contract_id@].members();
                let start = (match from_index {
                    Some(x) => x as int,
                    None => 0,
                });
                let lim = (match limit {
                    Some(x) => x as int,
                    None => 0,
                });
                let total = members.len() as int;
                let avail = if start >= total {
                    0
                } else {
                    total - start
                };
                let cnt = if lim < avail {
                    lim
                } else {
                    avail
                };
                &&& r@.len() == cnt
                &&& forall|q: int|
                    0 <= q < cnt ==> (#[trigger] r@[q]) == self.sales@[(
                        contract_id@,
                        members[start + q]@,
                    )]
            }),
    {
        let mut out: Vec<Sale> = Vec::new();
        let keys = match self.by_contract_id.get(&contract_id) {
            Some(s) => s,
            None => {
                return out;
            },
        };
        let total: usize = keys.len();
        let start128: u128 = match from_index {
            Some(x) => x,
            None => 0,
        };
        if start128 >= total as u128 {
            return out;
        }
        let start: usize = start128 as usize;
        let avail: usize = total - start;
        let lim: u64 = match limit {
            Some(x) => x,
            None => 0,
        };
        let cnt: usize = if (lim as u128) < (avail as u128) {
            lim as usize
        } else {
            avail
        };
        let mut q: usize = 0;
        while q < cnt
            invariant
                self.wf(),
                q <= cnt,
                start + cnt <= total,
                self.by_contract_id@.dom().contains(contract_id@),
                *keys == self.by_contract_id@[contract_id@],
                total == keys.members().len(),
                out@.len() == q,
                forall|p: int|
                    0 <= p < q ==> (#[trigger] out@[p]) == self.sales@[(
                        contract_id@,
                        keys.members()[start + p]@,
                    )],
            decreases cnt - q,
        {
            let token_id = keys.item(start + q);
            proof {
                keys.lemma_props();
                assert(self.by_contract_id@[contract_id@]@.contains(token_id@));
                assert(self.sales@.dom().contains((contract_id@, token_id@)));
            }
            let sale = match self.sales.get(&contract_id, token_id) {
                Some(s) => s.duplicate(),
                None => {
                    proof {
                        assert(false);
                    }
                    return out;
                },
            };
            out.push(sale);
            q += 1;
        }
        out
    }
}

} // verus!
