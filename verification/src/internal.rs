//! Internal mutators shared by the registry's entry points.
//!
//! The owner index and the primary token map must move together: these
//! helpers update the index, and `internal_transfer` performs the whole
//! ownership move — authorization check, index maintenance, and the
//! anti-replay clearing of the approval map — re-establishing the registry
//! invariant in one step.

use vstd::prelude::*;
use crate::common::ContractError;
use crate::metadata::Token;
use crate::nft_contract::Contract;
use crate::str_map::StrMap;
use crate::str_set::StrSet;

verus! {

/// A finite set holding two distinct members has at least two members.
pub proof fn lemma_set_two<A>(s: Set<A>, a: A, b: A)
    requires
        s.finite(),
        s.contains(a),
        s.contains(b),
        a != b,
    ensures
        s.len() >= 2,
{
    broadcast use vstd::set::group_set_axioms;

    let s1 = s.remove(a);
    assert(s1.contains(b));
    assert(s1.len() == s.len() - 1);
    let s2 = s1.remove(b);
    assert(s2.len() == s1.len() - 1);
}

/// The caller may move this token: it is the owner, or it holds an approval
/// whose id, when one is supplied, matches the supplied one exactly.
pub open spec fn transfer_allowed(t: Token, sender: Seq<char>, approval_id: Option<u64>) -> bool {
    ||| sender == t.owner_id@
    ||| (t.approved_account_ids@.dom().contains(sender) && match approval_id {
        Some(id) => t.approved_account_ids@[sender] == id,
        None => true,
    })
}

impl Contract {
    /// Lists `token_id` under `account_id` in the owner index, creating the
    /// account's entry when it has none.
    pub(crate) fn internal_add_token_to_owner(&mut self, token_id: &String, account_id: &String)
        requires
            old(self).tokens_per_owner.wf(),
            forall|o: Seq<char>|
                #[trigger] old(self).tokens_per_owner@.dom().contains(o) ==> old(self).tokens_per_owner@[o].wf(),
        ensures
            final(self).tokens_per_owner.wf(),
            forall|o: Seq<char>|
                #[trigger] final(self).tokens_per_owner@.dom().contains(o) ==> final(self).tokens_per_owner@[o].wf(),
            final(self).tokens_per_owner@.dom() == old(self).tokens_per_owner@.dom().insert(
                account_id@,
            ),
            final(self).tokens_per_owner@[account_id@]@ == (if old(self).tokens_per_owner@.dom().contains(account_id@) {
                old(self).tokens_per_owner@[account_id@]@
            } else {
                Set::<Seq<char>>::empty()
            }).insert(token_id@),
            final(self).tokens_per_owner@[account_id@]@.len() > 0,
            forall|o: Seq<char>|
                o != account_id@ && old(self).tokens_per_owner@.dom().contains(o) ==> final(self).tokens_per_owner@[o] == (#[trigger] old(self).tokens_per_owner@[o]),
            final(self).owner_id == old(self).owner_id,
            final(self).tokens_by_id == old(self).tokens_by_id,
            final(self).token_metadata_by_id == old(self).token_metadata_by_id,
            final(self).metadata == old(self).metadata,
    {
        broadcast use vstd::set::group_set_axioms;

        let mut tokens_set: StrSet = match self.tokens_per_owner.remove(account_id) {
            Some(s) => s,
            None => StrSet::new(),
        };
        proof {
            tokens_set.lemma_props();
        }
        tokens_set.insert(token_id.clone());
        proof {
            tokens_set.lemma_props();
            assert(tokens_set@.contains(token_id@));
            assert(tokens_set@.len() > 0);
        }
        self.tokens_per_owner.insert(account_id.clone(), tokens_set);
        proof {
            assert(self.tokens_per_owner@.dom() =~= old(self).tokens_per_owner@.dom().insert(
                account_id@,
            ));
        }
    }

    /// Delists `token_id` from `account_id`'s entry in the owner index,
    /// dropping the entry when it becomes empty.
    pub(crate) fn internal_remove_token_from_owner(&mut self, token_id: &String, account_id: &String)
        requires
            old(self).tokens_per_owner.wf(),
            forall|o: Seq<char>|
                #[trigger] old(self).tokens_per_owner@.dom().contains(o) ==> old(self).tokens_per_owner@[o].wf(),
            old(self).tokens_per_owner@.dom().contains(account_id@),
            old(self).tokens_per_owner@[account_id@]@.contains(token_id@),
        ensures
            final(self).tokens_per_owner.wf(),
            forall|o: Seq<char>|
                #[trigger] final(self).tokens_per_owner@.dom().contains(o) ==> final(self).tokens_per_owner@[o].wf(),
            old(self).tokens_per_owner@[account_id@]@.len() == 1 ==> final(self).tokens_per_owner@.dom() == old(self).tokens_per_owner@.dom().remove(account_id@),
            old(self).tokens_per_owner@[account_id@]@.len() > 1 ==> final(self).tokens_per_owner@.dom() == old(self).tokens_per_owner@.dom() && final(self).tokens_per_owner@[account_id@]@ == old(self).tokens_per_owner@[account_id@]@.remove(
                token_id@,
            ) && final(self).tokens_per_owner@[account_id@]@.len() > 0,
            forall|o: Seq<char>|
                o != account_id@ && old(self).tokens_per_owner@.dom().contains(o) ==> final(self).tokens_per_owner@.dom().contains(o) && final(self).tokens_per_owner@[o] == (
                #[trigger] old(self).tokens_per_owner@[o]),
            final(self).owner_id == old(self).owner_id,
            final(self).tokens_by_id == old(self).tokens_by_id,
            final(self).token_metadata_by_id == old(self).token_metadata_by_id,
            final(self).metadata == old(self).metadata,
    {
        broadcast use vstd::set::group_set_axioms;

        proof {
            old(self).tokens_per_owner@[account_id@].lemma_props();
        }
        let mut tokens_set: StrSet = match self.tokens_per_owner.remove(account_id) {
            Some(s) => s,
            None => {
                proof {
                    assert(false);
                }
                StrSet::new()
            },
        };
        tokens_set.remove(token_id);
        proof {
            tokens_set.lemma_props();
        }
        if tokens_set.is_empty() {
            proof {
                assert(old(self).tokens_per_owner@[account_id@]@.len() == 1);
                assert(self.tokens_per_owner@.dom() =~= old(self).tokens_per_owner@.dom().remove(
                    account_id@,
                ));
            }
        } else {
            proof {
                assert(old(self).tokens_per_owner@[account_id@]@.len() > 1);
            }
            self.tokens_per_owner.insert(account_id.clone(), tokens_set);
            proof {
                assert(self.tokens_per_owner@.dom() =~= old(self).tokens_per_owner@.dom());
            }
        }
    }

    /// Moves `token_id` from its owner to `receiver_id`, clearing the whole
    /// approval map so that the new owner starts clean, and returns the
    /// record as it stood before the move.  The caller must be the owner or
    /// an approved account whose supplied approval id, if any, matches the
    /// stored one exactly; the owner cannot transfer to itself.  A rejected
    /// call leaves the registry untouched.  The memo is advisory and has no
    /// effect on the state.
    pub(crate) fn internal_transfer(
        &mut self,
        sender_id: &String,
        receiver_id: &String,
        token_id: &String,
        approval_id: Option<u64>,
        memo: Option<String>,
    ) -> (r: Result<Token, ContractError>)
        requires
            old(self).wf(),
        ensures
            final(self).wf(),
            r is Ok <==> (old(self).tokens_by_id@.dom().contains(token_id@) && transfer_allowed(
                old(self).tokens_by_id@[token_id@],
                sender_id@,
                approval_id,
            ) && old(self).tokens_by_id@[token_id@].owner_id@ != receiver_id@),
            match r {
                Ok(prev) => {
                    &&& prev == old(self).tokens_by_id@[token_id@]
                    &&& final(self).tokens_by_id@.dom() == old(self).tokens_by_id@.dom()
                    &&& final(self).tokens_by_id@[token_id@].owner_id == *receiver_id
                    &&& final(self).tokens_by_id@[token_id@].approved_account_ids@ == Map::<
                        Seq<char>,
                        u64,
                    >::empty()
                    &&& final(self).tokens_by_id@[token_id@].approved_account_ids.kv() == Seq::<
                        (String, u64),
                    >::empty()
                    &&& final(self).tokens_by_id@[token_id@].next_approval_id
                        == prev.next_approval_id
                    &&& forall|t: Seq<char>|
                        t != token_id@ && old(self).tokens_by_id@.dom().contains(t) ==> final(self).tokens_by_id@[t] == (#[trigger] old(self).tokens_by_id@[t])
                },
                Err(e) => *final(self) == *old(self) && (if !old(self).tokens_by_id@.dom().contains(token_id@) {
                    e == ContractError::NotFound
                } else if !transfer_allowed(
                    old(self).tokens_by_id@[token_id@],
                    sender_id@,
                    approval_id,
                ) {
                    e == ContractError::Authorization
                } else {
                    e == ContractError::InvalidArgument
                }),
            },
            final(self).token_metadata_by_id == old(self).token_metadata_by_id,
            final(self).owner_id == old(self).owner_id,
            final(self).metadata == old(self).metadata,
    {
        broadcast use vstd::set::group_set_axioms;

        let _ = memo;
        let token_exists = self.tokens_by_id.contains_key(token_id);
        if !token_exists {
            return Err(ContractError::NotFound);
        }
        let allowed: bool = match self.tokens_by_id.get(token_id) {
            Some(token) => {
                if *sender_id == token.owner_id {
                    true
                } else {
                    match token.approved_account_ids.get(sender_id) {
                        Some(actual) => match approval_id {
                            Some(enforced) => *actual == enforced,
                            None => true,
                        },
                        None => false,
                    }
                }
            },
            None => {
                proof {
                    assert(false);
                }
                false
            },
        };
        if !allowed {
            return Err(ContractError::Authorization);
        }
        let same_owner: bool = match self.tokens_by_id.get(token_id) {
            Some(token) => token.owner_id == *receiver_id,
            None => {
                proof {
                    assert(false);
                }
                false
            },
        };
        if same_owner {
            return Err(ContractError::InvalidArgument);
        }
        let prev: Token = match self.tokens_by_id.remove(token_id) {
            Some(t) => t,
            None => {
                proof {
                    assert(false);
                }
                Token {
                    owner_id: String::new(),
                    approved_account_ids: StrMap::new(),
                    next_approval_id: 0,
                }
            },
        };
        self.internal_remove_token_from_owner(token_id, &prev.owner_id);
        let ghost mid1 = *self;
        self.internal_add_token_to_owner(token_id, receiver_id);
        let new_token = Token {
            owner_id: receiver_id.clone(),
            approved_account_ids: StrMap::new(),
            next_approval_id: prev.next_approval_id,
        };
        self.tokens_by_id.insert(token_id.clone(), new_token);
        proof {
            let s0 = *old(self);
            let po = prev.owner_id@;
            assert(prev == s0.tokens_by_id@[token_id@]);
            assert(self.tokens_by_id@ =~= s0.tokens_by_id@.insert(token_id@, new_token));
            assert(self.tokens_by_id@.dom() =~= s0.tokens_by_id@.dom());
            // The previous owner's entry listed the token, and any other
            // token it listed keeps it above one member.
            assert(s0.tokens_per_owner@.dom().contains(po));
            assert(s0.tokens_per_owner@[po]@.contains(token_id@));
            s0.tokens_per_owner@[po].lemma_props();
            // The index after both updates: receiver gained the token, the
            // previous owner lost it, everyone else is untouched.
            assert forall|t: Seq<char>| #[trigger] self.tokens_by_id@.dom().contains(t) implies {
                &&& self.tokens_by_id@[t].wf()
                &&& self.tokens_per_owner@.dom().contains(self.tokens_by_id@[t].owner_id@)
                &&& self.tokens_per_owner@[self.tokens_by_id@[t].owner_id@]@.contains(t)
            } by {
                if t == token_id@ {
                    assert(self.tokens_by_id@[t] == new_token);
                    assert(self.tokens_per_owner@[receiver_id@]@.contains(t));
                } else {
                    assert(self.tokens_by_id@[t] == s0.tokens_by_id@[t]);
                    let o = s0.tokens_by_id@[t].owner_id@;
                    assert(s0.tokens_per_owner@.dom().contains(o));
                    assert(s0.tokens_per_owner@[o]@.contains(t));
                    if o == po {
                        lemma_set_two(s0.tokens_per_owner@[po]@, t, token_id@);
                        assert(mid1.tokens_per_owner@[o]@.contains(t));
                        if o == receiver_id@ {
                        } else {
                            assert(self.tokens_per_owner@[o] == mid1.tokens_per_owner@[o]);
                        }
                    } else {
                        if o == receiver_id@ {
                            assert(mid1.tokens_per_owner@[o] == s0.tokens_per_owner@[o]);
                            assert(self.tokens_per_owner@[o]@.contains(t));
                        } else {
                            assert(mid1.tokens_per_owner@[o] == s0.tokens_per_owner@[o]);
                            assert(self.tokens_per_owner@[o] == mid1.tokens_per_owner@[o]);
                        }
                    }
                }
            }
            assert forall|o: Seq<char>, t: Seq<char>|
                self.tokens_per_owner@.dom().contains(o)
                    && #[trigger] self.tokens_per_owner@[o]@.contains(t) implies {
                &&& self.tokens_by_id@.dom().contains(t)
                &&& self.tokens_by_id@[t].owner_id@ == o
            } by {
                if o == receiver_id@ {
                    if t == token_id@ {
                        assert(self.tokens_by_id@[t].owner_id@ == receiver_id@);
                    } else {
                        // The receiver's old entries are untouched by both
                        // index updates (receiver differs from the previous
                        // owner, whose entry was the one shrunk).
                        assert(mid1.tokens_per_owner@.dom().contains(o)
                            ==> mid1.tokens_per_owner@[o]@.contains(t));
                        assert(s0.tokens_per_owner@.dom().contains(o)
                            && s0.tokens_per_owner@[o]@.contains(t));
                        assert(s0.tokens_by_id@[t].owner_id@ == o);
                        assert(self.tokens_by_id@[t] == s0.tokens_by_id@[t]);
                    }
                } else {
                    assert(self.tokens_per_owner@[o] == mid1.tokens_per_owner@[o]);
                    assert(mid1.tokens_per_owner@.dom().contains(o));
                    if o == po {
                        assert(s0.tokens_per_owner@[po]@.len() > 1);
                        assert(mid1.tokens_per_owner@[o]@ == s0.tokens_per_owner@[o]@.remove(
                            token_id@,
                        ));
                        assert(s0.tokens_per_owner@[o]@.contains(t));
                        assert(t != token_id@);
                    } else {
                        assert(mid1.tokens_per_owner@[o] == s0.tokens_per_owner@[o]);
                        assert(s0.tokens_per_owner@[o]@.contains(t));
                        assert(t != token_id@);
                    }
                    assert(s0.tokens_by_id@[t].owner_id@ == o);
                    assert(self.tokens_by_id@[t] == s0.tokens_by_id@[t]);
                }
            }
        }
        Ok(prev)
    }
}

} // verus!
