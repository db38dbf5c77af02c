//! Read-only enumeration of tokens, with pagination.
//!
//! Pagination follows the entry points' conventions: an absent start index
//! means the beginning, and an absent limit means a limit of zero, so a
//! call without a limit returns nothing.

use vstd::prelude::*;
use crate::metadata::JsonToken;
use crate::nft_contract::Contract;

verus! {

impl Contract {
    /// How many tokens the registry holds.
    pub fn nft_total_supply(&self) -> (r: u128)
        requires
            self.wf(),
        ensures
            r == self.token_metadata_by_id.kv().len(),
            r == self.tokens_by_id@.dom().len(),
    {
        proof {
            self.token_metadata_by_id.lemma_props();
            self.tokens_by_id.lemma_props();
            assert(self.token_metadata_by_id@.dom() =~= self.tokens_by_id@.dom());
        }
        self.token_metadata_by_id.len() as u128
    }

    /// How many tokens `account_id` owns.
    pub fn nft_supply_for_owner(&self, account_id: String) -> (r: u128)
        requires
            self.wf(),
        ensures
            self.tokens_per_owner@.dom().contains(account_id@) ==> r == self.tokens_per_owner@[account_id@]@.len(),
            !self.tokens_per_owner@.dom().contains(account_id@) ==> r == 0,
    {
        match self.tokens_per_owner.get(&account_id) {
            Some(set) => {
                proof {
                    set.lemma_props();
                }
                set.len() as u128
            },
            None => 0,
        }
    }

    /// The tokens of the registry, in storage order, starting at
    /// `from_index` and at most `limit` long.
    pub fn nft_tokens(&self, from_index: Option<u128>, limit: Option<u64>) -> (r: Vec<JsonToken>)
        requires
            self.wf(),
        ensures
            ({
                let start = (match from_index {
                    Some(x) => x as int,
                    None => 0,
                });
                let lim = (match limit {
                    Some(x) => x as int,
                    None => 0,
                });
                let total = self.token_metadata_by_id.kv().len() as int;
                let avail = if start >= total {
                    0
                } else {
                    total - start
                };
                let cnt = if lim < avail {
                    lim
                } else {
                    avail
                };
                &&& r@.len() == cnt
                &&& forall|q: int|
                    0 <= q < cnt ==> {
                        let kvq = self.token_metadata_by_id.kv()[start + q];
                        &&& (#[trigger] r@[q]).token_id == kvq.0
                        &&& r@[q].metadata == kvq.1
                        &&& r@[q].owner_id == self.tokens_by_id@[kvq.0@].owner_id
                        &&& r@[q].approved_account_ids@
                            == self.tokens_by_id@[kvq.0@].approved_account_ids@
                    }
            }),
    {
        let total: usize = self.token_metadata_by_id.len();
        let start128: u128 = match from_index {
            Some(x) => x,
            None => 0,
        };
        let mut out: Vec<JsonToken> = Vec::new();
        if start128 >= total as u128 {
            return out;
        }
        let start: usize = start128 as usize;
        let avail: usize = total - start;
        let lim: u64 = match limit {
            Some(x) => x,
            None => 0,
        };
        let cnt: usize = if (lim as u128) < (avail as u128) {
            lim as usize
        } else {
            avail
        };
        let mut q: usize = 0;
        while q < cnt
            invariant
                self.wf(),
                q <= cnt,
                start + cnt <= total,
                total == self.token_metadata_by_id.kv().len(),
                out@.len() == q,
                forall|p: int|
                    0 <= p < q ==> {
                        let kvp = self.token_metadata_by_id.kv()[start + p];
                        &&& (#[trigger] out@[p]).token_id == kvp.0
                        &&& out@[p].metadata == kvp.1
                        &&& out@[p].owner_id == self.tokens_by_id@[kvp.0@].owner_id
                        &&& out@[p].approved_account_ids@
                            == self.tokens_by_id@[kvp.0@].approved_account_ids@
                    },
            decreases cnt - q,
        {
            let key: String = self.token_metadata_by_id.entries()[start + q].0.clone();
            proof {
                self.token_metadata_by_id.lemma_props();
                assert(self.token_metadata_by_id@.dom().contains(key@));
                assert(self.tokens_by_id@.dom().contains(key@));
                assert(self.token_metadata_by_id@[key@] == self.token_metadata_by_id.kv()[start
                    + q].1);
            }
            let jt: JsonToken = match self.nft_token(key) {
                Some(j) => j,
                None => {
                    proof {
                        assert(false);
                    }
                    return out;
                },
            };
            out.push(jt);
            q += 1;
        }
        out
    }

    /// The tokens `account_id` owns, in index order, starting at
    /// `from_index` and at most `limit` long.
    pub fn nft_tokens_for_owner(
        &self,
        account_id: String,
        from_index: Option<u128>,
        limit: Option<u64>,
    ) -> (r: Vec<JsonToken>)
        requires
            self.wf(),
        ensures
            !self.tokens_per_owner@.dom().contains(account_id@) ==> r@.len() == 0,
            self.tokens_per_owner@.dom().contains(account_id@) ==> ({
                let members = self.tokens_per_owner@[account_id@].members();
                let start = (match from_index {
                    Some(x) => x as int,
                    None => 0,
                });
                let lim = (match limit {
                    Some(x) => x as int,
                    None => 0,
                });
                let total = members.len() as int;
                let avail = if start >= total {
                    0
                } else {
                    total - start
                };
                let cnt = if lim < avail {
                    lim
                } else {
                    avail
                };
                &&& r@.len() == cnt
                &&& forall|q: int|
                    0 <= q < cnt ==> {
                        let key = members[start + q];
                        &&& (#[trigger] r@[q]).token_id == key
                        &&& r@[q].owner_id == self.tokens_by_id@[key@].owner_id
                        &&& r@[q].metadata == self.token_metadata_by_id@[key@]
                        &&& r@[q].approved_account_ids@
                            == self.tokens_by_id@[key@].approved_account_ids@
                    }
            }),
    {
        let mut out: Vec<JsonToken> = Vec::new();
        let token_set = match self.tokens_per_owner.get(&account_id) {
            Some(s) => s,
            None => {
                return out;
            },
        };
        let total: usize = token_set.len();
        let start128: u128 = match from_index {
            Some(x) => x,
            None => 0,
        };
        if start128 >= total as u128 {
            return out;
        }
        let start: usize = start128 as usize;
        let avail: usize = total - start;
        let lim: u64 = match limit {
            Some(x) => x,
            None => 0,
        };
        let cnt: usize = if (lim as u128) < (avail as u128) {
            lim as usize
        } else {
            avail
        };
        let mut q: usize = 0;
        while q < cnt
            invariant
                self.wf(),
                q <= cnt,
                start + cnt <= total,
                self.tokens_per_owner@.dom().contains(account_id@),
                *token_set == self.tokens_per_owner@[account_id@],
                total == token_set.members().len(),
                out@.len() == q,
                forall|p: int|
                    0 <= p < q ==> {
                        let key = token_set.members()[start + p];
                        &&& (#[trigger] out@[p]).token_id == key
                        &&& out@[p].owner_id == self.tokens_by_id@[key@].owner_id
                        &&& out@[p].metadata == self.token_metadata_by_id@[key@]
                        &&& out@[p].approved_account_ids@
                            == self.tokens_by_id@[key@].approved_account_ids@
                    },
            decreases cnt - q,
        {
            let key: String = token_set.item(start + q).clone();
            proof {
                token_set.lemma_props();
                assert(self.tokens_per_owner@[account_id@]@.contains(key@));
                assert(self.tokens_by_id@.dom().contains(key@));
            }
            let jt: JsonToken = match self.nft_token(key) {
                Some(j) => j,
                None => {
                    proof {
                        assert(false);
                    }
                    return out;
                },
            };
            out.push(jt);
            q += 1;
        }
        out
    }
}

} // verus!
