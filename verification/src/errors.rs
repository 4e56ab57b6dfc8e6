//! Errors returned by the contracts.
use vstd::prelude::*;

verus! {

/// The generic error kinds that the host environment can report.
#[derive(Debug, Clone, PartialEq, Eq)]
pub enum StdError {
    /// A free-form error message.
    GenericErr { msg: String },
    /// A storage item that was expected is absent.
    NotFound { kind: String },
}

/// Errors of the oracle hub and of the proxies.
#[derive(Debug, Clone, PartialEq, Eq)]
pub enum ContractError {
    Std(StdError),
    Unauthorized,
    ProxyNotWhitelisted,
    ProxyNotRegistered,
    ProxyAlreadyRegistered,
    SymbolNotRegistered,
    MappingNotFound,
    InvalidPriorities,
    TooManyProxiesForSymbol { max: u8 },
    TooManyWhitelistedProxies { max: u8 },
    PriceNotAvailable,
    ProxyError { reason: String },
}

impl StdError {
    /// A copy of this error.
    pub fn clone_error(&self) -> (r: StdError)
        ensures
            r == *self,
    {
        match self {
            StdError::GenericErr { msg } => StdError::GenericErr { msg: msg.clone() },
            StdError::NotFound { kind } => StdError::NotFound { kind: kind.clone() },
        }
    }
}

} // verus!
