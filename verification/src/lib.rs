//! A tokenized-ownership registry and a marketplace for its tokens.
//!
//! The library models two cooperating components: an ownership/approval
//! registry for uniquely identified tokens, and a marketplace that lists
//! tokens for sale and settles purchases through asynchronous calls back to
//! the token's origin registry.  The host runtime (caller identity, attached
//! payment, scheduled remote calls and their later outcomes) is represented
//! by plain values: every entry point receives what the host would supply as
//! arguments and returns the transfers and remote calls it schedules.

pub mod approval;
pub mod codec;
pub mod common;
pub mod enumeration;
pub mod internal;
pub mod market_contract;
pub mod metadata;
pub mod mint;
pub mod nft_callback;
pub mod nft_contract;
pub mod nft_core;
pub mod pair_map;
pub mod pair_set;
pub mod sale;
pub mod sale_view;
pub mod str_map;
pub mod str_set;
pub mod utils;
