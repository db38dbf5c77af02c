//! Token records and the metadata attached to them.
//!
//! A token is a uniquely identified ownership record: its owner, the map of
//! accounts approved to transfer it (each tagged with a monotonically
//! increasing approval id), and the counter the next approval id is drawn
//! from.  Metadata is an opaque payload to every rule in this library: it is
//! stored, returned, and never inspected.  Content hashes ride as base64
//! strings, exactly as they travel on the wire.

use vstd::prelude::*;
use crate::str_map::StrMap;

verus! {

/// An ownership record.
#[derive(Debug)]
pub struct Token {
    pub owner_id: String,
    /// Accounts approved to transfer this token, each under the approval id
    /// it was granted.
    pub approved_account_ids: StrMap<u64>,
    /// The id the next approval will be granted under.
    pub next_approval_id: u64,
}

impl Token {
    /// Every granted approval id was drawn from the counter, so it is
    /// strictly below the next id to be granted.  This is what makes an
    /// approval id impossible to reuse.
    pub open spec fn wf(&self) -> bool {
        &&& self.approved_account_ids.wf()
        &&& forall|a: Seq<char>|
            #[trigger] self.approved_account_ids@.dom().contains(a)
                ==> self.approved_account_ids@[a] < self.next_approval_id
    }
}

/// A token as reported to callers: the record joined with its metadata.
#[derive(Debug)]
pub struct JsonToken {
    pub owner_id: String,
    pub token_id: String,
    pub metadata: TokenMetadata,
    pub approved_account_ids: StrMap<u64>,
}

/// Descriptive data for the registry as a whole.
#[derive(Debug, PartialEq, Eq)]
pub struct NFTContractMetadata {
    /// The metadata-standard version this registry implements.
    pub spec_version: String,
    pub name: String,
    pub symbol: String,
    pub icon: Option<String>,
    pub base_uri: Option<String>,
    pub reference: Option<String>,
    /// Base64-encoded content hash of the document under `reference`.
    pub reference_hash: Option<String>,
}

/// Descriptive data for one token.
#[derive(Debug, PartialEq, Eq)]
pub struct TokenMetadata {
    pub title: Option<String>,
    pub description: Option<String>,
    pub media: Option<String>,
    /// Base64-encoded content hash of the document under `media`.
    pub media_hash: Option<String>,
    pub copies: Option<u64>,
    pub issued_at: Option<u64>,
    pub expires_at: Option<u64>,
    pub starts_at: Option<u64>,
    pub updated_at: Option<u64>,
    pub extra: Option<String>,
    pub reference: Option<String>,
    pub reference_hash: Option<String>,
}

/// An equal copy of an optional string.
pub fn dup_opt_string(x: &Option<String>) -> (r: Option<String>)
    ensures
        r == *x,
{
    match x {
        Some(s) => Some(s.clone()),
        None => None,
    }
}

impl NFTContractMetadata {
    /// An equal copy.
    pub fn duplicate(&self) -> (r: Self)
        ensures
            r == *self,
    {
        NFTContractMetadata {
            spec_version: self.spec_version.clone(),
            name: self.name.clone(),
            symbol: self.symbol.clone(),
            icon: dup_opt_string(&self.icon),
            base_uri: dup_opt_string(&self.base_uri),
            reference: dup_opt_string(&self.reference),
            reference_hash: dup_opt_string(&self.reference_hash),
        }
    }
}

impl TokenMetadata {
    /// An equal copy.
    pub fn duplicate(&self) -> (r: Self)
        ensures
            r == *self,
    {
        TokenMetadata {
            title: dup_opt_string(&self.title),
            description: dup_opt_string(&self.description),
            media: dup_opt_string(&self.media),
            media_hash: dup_opt_string(&self.media_hash),
            copies: self.copies,
            issued_at: self.issued_at,
            expires_at: self.expires_at,
            starts_at: self.starts_at,
            updated_at: self.updated_at,
            extra: dup_opt_string(&self.extra),
            reference: dup_opt_string(&self.reference),
            reference_hash: dup_opt_string(&self.reference_hash),
        }
    }
}

/// The read side of the registry's descriptive data.
pub trait NonFungibleTokenMetada {
    fn nft_metadata(&self) -> NFTContractMetadata;
}

} // verus!
