//! The query interface that every price proxy implements.
use vstd::prelude::*;
use crate::decimal::Decimal;
use crate::errors::{ContractError, StdError};

verus! {

/// The query a proxy answers.
#[derive(Debug, Clone, PartialEq, Eq)]
pub enum ProxyQueryMsg {
    Price { symbol: String },
}

/// A proxy's answer to a price query.
#[derive(Debug, Clone, Copy, PartialEq, Eq, Structural, Default)]
pub struct ProxyPriceResponse {
    /// rate denominated in the base denomination
    pub rate: Decimal,
    /// timestamp in seconds
    pub last_updated: u64,
}

/// The envelope under which a proxy receives its standard queries.
#[derive(Debug, Clone, PartialEq, Eq)]
pub enum ProxyBaseQuery {
    Base(ProxyQueryMsg),
}

/// The owner after an owner update sent by `sender`: only the owner may send it,
/// and the new owner must be a valid address (`check` is the host's verdict).
pub open spec fn owner_update(
    owner: Seq<char>,
    sender: Seq<char>,
    new_owner: Seq<char>,
    check: Result<(), StdError>,
) -> Result<Seq<char>, ContractError> {
    if owner != sender {
        Err(ContractError::Unauthorized)
    } else {
        match check {
            Err(e) => Err(ContractError::Std(e)),
            Ok(_) => Ok(new_owner),
        }
    }
}

/// An instantiation whose addresses got these verdicts from the host, in order:
/// the first invalid address is the error.
pub open spec fn first_invalid(checks: Seq<Result<(), StdError>>) -> Option<StdError>
    decreases checks.len(),
{
    if checks.len() == 0 {
        None
    } else {
        match checks[0] {
            Err(e) => Some(e),
            Ok(_) => first_invalid(checks.drop_first()),
        }
    }
}

} // verus!
