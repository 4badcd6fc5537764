//! The settings that the programs around this crate are started with.

use vstd::prelude::*;
use vstd::string::*;

verus! {

/// The settings of the program that serves requests.
#[derive(Debug, PartialEq, Eq)]
pub struct Params {
    pub postgres_url: String,
    pub glossary_path: String,
}

/// The settings that every collecting program shares.
#[derive(Debug, PartialEq, Eq)]
pub struct CommonParams {
    pub rpc_url: String,
    pub commitment: String,
}

/// The settings of the program that stores commissions: there are none.
#[derive(Clone, Copy, Debug, PartialEq, Eq, Structural)]
pub struct StoreCommissionsOptions {}

/// The commitment that is asked of the network where none is named.
pub open spec fn default_commitment() -> Seq<char> {
    "finalized"@
}

impl CommonParams {
    /// The settings for `rpc_url`, with the default commitment where none is
    /// given.
    pub fn new(rpc_url: String, commitment: Option<String>) -> (r: Self)
        ensures
            r.rpc_url == rpc_url,
            r.commitment@ == match commitment {
                Some(c) => c@,
                None => default_commitment(),
            },
    {
        CommonParams {
            rpc_url,
            commitment: match commitment {
                Some(c) => c,
                None => String::from_str("finalized"),
            },
        }
    }
}

} // verus!
