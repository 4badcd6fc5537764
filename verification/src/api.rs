//! What the request layer asks of a published snapshot.

use crate::grouping::{first_position, lemma_first_position, lemma_no_position};
use crate::records::{clone_uptimes, IdentityRecords, UptimeRecord};
use crate::validators::{group_identities, ValidatorRecord};
use vstd::prelude::*;

verus! {

/// The answer to a request for a validator's uptimes.
#[derive(Debug, PartialEq, Eq)]
pub struct ResponseUptimes {
    pub uptimes: Vec<UptimeRecord>,
}

/// The parameters of a request for uptimes: there are none.
#[derive(Clone, Copy, Debug, PartialEq, Eq, Structural)]
pub struct QueryParams {}

/// Why a request cannot be answered.
#[derive(Clone, Copy, Debug, PartialEq, Eq, Structural)]
pub enum NotFound {
    /// No validator has the account asked for.
    Validator,
    /// The validator is known, but no uptimes are filed under its identity.
    Uptimes,
}

/// For each validator, whether `account` is its identity or its vote
/// account.
pub open spec fn answers_to(validators: Seq<ValidatorRecord>, account: Seq<char>) -> Seq<bool> {
    Seq::new(
        validators.len(),
        |i: int| validators[i].identity@ == account || validators[i].vote_account@ == account,
    )
}

/// The uptimes of the first validator that `account` names, by identity or
/// by vote account.
pub open spec fn uptimes_of(
    account: Seq<char>,
    validators: Seq<ValidatorRecord>,
    uptimes: Seq<IdentityRecords<UptimeRecord>>,
) -> Result<Seq<UptimeRecord>, NotFound> {
    match first_position(answers_to(validators, account), true) {
        None => Err(NotFound::Validator),
        Some(k) => match first_position(group_identities(uptimes), validators[k].identity@) {
            None => Err(NotFound::Uptimes),
            Some(g) => Ok(uptimes[g].records@),
        },
    }
}

/// Answers a request for the uptimes of the validator that `vote_account`
/// names, by its identity or by its vote account.
pub fn handler(
    vote_account: &String,
    _query_params: QueryParams,
    validators: &Vec<ValidatorRecord>,
    uptimes: &Vec<IdentityRecords<UptimeRecord>>,
) -> (r: Result<ResponseUptimes, NotFound>)
    ensures
        match r {
            Ok(response) => uptimes_of(vote_account@, validators@, uptimes@) == Ok::<
                Seq<UptimeRecord>,
                NotFound,
            >(response.uptimes@),
            Err(e) => uptimes_of(vote_account@, validators@, uptimes@) == Err::<
                Seq<UptimeRecord>,
                NotFound,
            >(e),
        },
{
    let ghost hits = answers_to(validators@, vote_account@);
    let mut k: usize = 0;
    while k < validators.len()
        invariant
            k <= validators.len(),
            hits == answers_to(validators@, vote_account@),
            forall|j: int| 0 <= j < k ==> hits[j] != true,
        decreases validators.len() - k,
    {
        if validators[k].identity == *vote_account || validators[k].vote_account == *vote_account {
            proof {
                lemma_first_position(hits, true, k as int);
            }
            let ghost names = group_identities(uptimes@);
            let identity = &validators[k].identity;
            let mut g: usize = 0;
            while g < uptimes.len()
                invariant
                    g <= uptimes.len(),
                    k < validators.len(),
                    first_position(answers_to(validators@, vote_account@), true) == Some(k as int),
                    identity@ == validators[k as int].identity@,
                    names == group_identities(uptimes@),
                    forall|j: int| 0 <= j < g ==> names[j] != identity@,
                decreases uptimes.len() - g,
            {
                if uptimes[g].identity == *identity {
                    proof {
                        lemma_first_position(names, identity@, g as int);
                    }
                    return Ok(ResponseUptimes { uptimes: clone_uptimes(&uptimes[g].records) });
                }
                g += 1;
            }
            proof {
                lemma_no_position(names, identity@);
            }
            return Err(NotFound::Uptimes);
        }
        k += 1;
    }
    proof {
        lemma_no_position(hits, true);
    }
    Err(NotFound::Validator)
}

} // verus!
