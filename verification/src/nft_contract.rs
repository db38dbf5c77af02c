//! The ownership and approval registry.
//!
//! The registry owns the primary token map, the per-token metadata, and the
//! owner index.  Its well-formedness invariant ties the three together:
//! every token's owner is exactly the account whose index entry lists it,
//! token and metadata records exist for the same ids, and every granted
//! approval id lies strictly below the token's next-approval counter.  Every
//! entry point requires and re-establishes this invariant, and a rejected
//! call leaves the whole state untouched.

use vstd::prelude::*;
use crate::metadata::NFTContractMetadata;
use crate::metadata::Token;
use crate::metadata::TokenMetadata;
use crate::str_map::StrMap;
use crate::str_set::StrSet;

verus! {

/// The ownership and approval registry.
#[derive(Debug)]
pub struct Contract {
    /// The account that administers this registry.
    pub owner_id: String,
    /// Owner account, to the ids of the tokens it owns.
    pub tokens_per_owner: StrMap<StrSet>,
    /// Token id, to the ownership record.
    pub tokens_by_id: StrMap<Token>,
    /// Token id, to the token's metadata.
    pub token_metadata_by_id: StrMap<TokenMetadata>,
    /// Descriptive data for the registry as a whole.
    pub metadata: NFTContractMetadata,
}

impl Contract {
    /// Every stored token's approval map is well formed.
    pub open spec fn tokens_wf(&self) -> bool {
        forall|t: Seq<char>|
            #[trigger] self.tokens_by_id@.dom().contains(t) ==> self.tokens_by_id@[t].wf()
    }

    /// A token record and its metadata record exist for the same ids.
    pub open spec fn metadata_dom_ok(&self) -> bool {
        &&& forall|t: Seq<char>|
            #[trigger] self.tokens_by_id@.dom().contains(t)
                ==> self.token_metadata_by_id@.dom().contains(t)
        &&& forall|t: Seq<char>|
            #[trigger] self.token_metadata_by_id@.dom().contains(t)
                ==> self.tokens_by_id@.dom().contains(t)
    }

    /// The owner recorded in the primary map equals the owner implied by the
    /// owner index, in both directions, and index entries are never empty.
    pub open spec fn owner_index_ok(&self) -> bool {
        &&& forall|t: Seq<char>|
            #[trigger] self.tokens_by_id@.dom().contains(t) ==> self.tokens_per_owner@.dom().contains(
                self.tokens_by_id@[t].owner_id@,
            ) && self.tokens_per_owner@[self.tokens_by_id@[t].owner_id@]@.contains(t)
        &&& forall|o: Seq<char>|
            #[trigger] self.tokens_per_owner@.dom().contains(o) ==> self.tokens_per_owner@[o].wf()
                && self.tokens_per_owner@[o]@.len() > 0
        &&& forall|o: Seq<char>, t: Seq<char>|
            self.tokens_per_owner@.dom().contains(o) && #[trigger] self.tokens_per_owner@[o]@.contains(
                t,
            ) ==> self.tokens_by_id@.dom().contains(t) && self.tokens_by_id@[t].owner_id@ == o
    }

    /// The registry's invariant.
    pub open spec fn wf(&self) -> bool {
        &&& self.tokens_by_id.wf()
        &&& self.token_metadata_by_id.wf()
        &&& self.tokens_per_owner.wf()
        &&& self.tokens_wf()
        &&& self.metadata_dom_ok()
        &&& self.owner_index_ok()
    }

    /// An empty registry administered by `owner_id`.
    pub fn new(owner_id: String, token_metadata: NFTContractMetadata) -> (r: Self)
        ensures
            r.wf(),
            r.owner_id == owner_id,
            r.metadata == token_metadata,
            r.tokens_by_id@ == Map::<Seq<char>, Token>::empty(),
            r.tokens_by_id.kv() == Seq::<(String, Token)>::empty(),
            r.token_metadata_by_id@ == Map::<Seq<char>, TokenMetadata>::empty(),
            r.token_metadata_by_id.kv() == Seq::<(String, TokenMetadata)>::empty(),
            r.tokens_per_owner@ == Map::<Seq<char>, StrSet>::empty(),
    {
        Contract {
            owner_id,
            tokens_per_owner: StrMap::new(),
            tokens_by_id: StrMap::new(),
            token_metadata_by_id: StrMap::new(),
            metadata: token_metadata,
        }
    }

    /// An empty registry with this library's stock descriptive data.
    pub fn new_default_metadata(owner_id: String) -> (r: Self)
        ensures
            r.wf(),
            r.owner_id == owner_id,
            r.tokens_by_id@ == Map::<Seq<char>, Token>::empty(),
            r.tokens_by_id.kv() == Seq::<(String, Token)>::empty(),
            r.token_metadata_by_id@ == Map::<Seq<char>, TokenMetadata>::empty(),
            r.token_metadata_by_id.kv() == Seq::<(String, TokenMetadata)>::empty(),
            r.tokens_per_owner@ == Map::<Seq<char>, StrSet>::empty(),
            r.metadata.spec_version@ == "zng-nft-2.0.0"@,
            r.metadata.name@ == "ZNG NFT"@,
            r.metadata.symbol@ == "ZNGT"@,
            r.metadata.icon is None,
            r.metadata.base_uri is None,
            r.metadata.reference is None,
            r.metadata.reference_hash is None,
    {
        Contract::new(
            owner_id,
            NFTContractMetadata {
                spec_version: String::from_str("zng-nft-2.0.0"),
                name: String::from_str("ZNG NFT"),
                symbol: String::from_str("ZNGT"),
                icon: None,
                base_uri: None,
                reference: None,
                reference_hash: None,
            },
        )
    }

    /// The registry's descriptive data.
    pub fn nft_metadata(&self) -> (r: NFTContractMetadata)
        ensures
            r == self.metadata,
    {
        self.metadata.duplicate()
    }
}

/// For every token, the owner recorded in the primary map is exactly the
/// account under whose index entry the token is listed: the index lists
/// the token under the recorded owner, and under no other account.
pub proof fn lemma_owner_matches_owner_index(c: &Contract, t: Seq<char>)
    requires
        c.wf(),
        c.tokens_by_id@.dom().contains(t),
    ensures
        c.tokens_per_owner@.dom().contains(c.tokens_by_id@[t].owner_id@),
        c.tokens_per_owner@[c.tokens_by_id@[t].owner_id@]@.contains(t),
        forall|o: Seq<char>|
            c.tokens_per_owner@.dom().contains(o) && (#[trigger] c.tokens_per_owner@[o]@.contains(
                t,
            )) ==> o == c.tokens_by_id@[t].owner_id@,
{
}

} // verus!
