//! The template of a proxy: a contract that answers the proxy queries from a
//! source contract.
use vstd::prelude::*;
use crate::errors::{ContractError, StdError};
use crate::proxy::ProxyQueryMsg;

verus! {

#[derive(Debug, Clone, PartialEq, Eq)]
pub struct InstantiateMsg {
    pub source_addr: String,
}

#[derive(Debug, Clone, PartialEq, Eq)]
pub enum QueryMsg {
    /// Implementation of the queries required by the proxy standard
    Base(ProxyQueryMsg),
    Config {},
}

#[derive(Debug, Clone, PartialEq, Eq)]
pub struct ConfigResponse {
    pub source_addr: String,
}

/// The configuration of the proxy.
#[derive(Debug, Clone, PartialEq, Eq)]
pub struct Config {
    pub source_addr: String,
}

impl Config {
    pub fn as_res(&self) -> (r: ConfigResponse)
        ensures
            r.source_addr@ == self.source_addr@,
    {
        ConfigResponse { source_addr: self.source_addr.clone() }
    }
}

/// The storage of the proxy.
pub struct TemplateProxy {
    pub config: Config,
}

impl TemplateProxy {
    /// Instantiates the proxy; `source_check` is the host's verdict on the source address
    pub fn instantiate(msg: InstantiateMsg, source_check: Result<(), StdError>) -> (r: Result<
        TemplateProxy,
        ContractError,
    >)
        ensures
            match source_check {
                Err(e) => r == Err::<TemplateProxy, ContractError>(ContractError::Std(e)),
                Ok(_) => r matches Ok(p) && p.config.source_addr@ == msg.source_addr@,
            },
    {
        if let Err(e) = source_check {
            return Err(ContractError::Std(e));
        }
        Ok(TemplateProxy { config: Config { source_addr: msg.source_addr } })
    }

    /// Queries the contract configuration
    pub fn query_config(&self) -> (r: Result<ConfigResponse, ContractError>)
        ensures
            r matches Ok(c) && c.source_addr@ == self.config.source_addr@,
    {
        Ok(self.config.as_res())
    }

    /// Answers a query. The price query of the standard is left to the proxies
    /// built from this template (here it is not implemented), so only the
    /// configuration is asked.
    pub fn query(&self, msg: QueryMsg) -> (r: Result<ConfigResponse, ContractError>)
        requires
            msg is Config,
        ensures
            r matches Ok(c) && c.source_addr@ == self.config.source_addr@,
    {
        self.query_config()
    }
}

} // verus!
