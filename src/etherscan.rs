//! Turning an explorer reply into a contract record.

use vstd::prelude::*;
use vstd::string::*;
use crate::classify::{detect_contract_type, type_of_lowered};
use crate::models::{chain_id_to_name, chain_name, opt_view, ContractData, EtherscanResponse};
use crate::text::{lower_of, lowercase};

verus! {

/// Why fetching one address gave no record.
#[derive(Debug, Clone)]
pub enum FetchError {
    /// The explorer answered with a status other than success; its message.
    Api(String),
    /// The explorer knew no contract at the address; the address.
    NotFound(String),
    /// The request could not be sent or answered; a description.
    Transport(String),
    /// The reply could not be decoded; a description.
    Decode(String),
}

/// The implementation address an explorer entry reports, if it names one:
/// neither empty nor the bare `0x` placeholder.
pub open spec fn implementation_of(implementation: Seq<char>) -> Option<Seq<char>> {
    if implementation.len() > 0 && implementation != "0x"@ {
        Some(implementation)
    } else {
        None
    }
}

/// The record built for `address` on `chain_id` from a successful reply.
pub open spec fn record_matches(
    c: ContractData,
    response: EtherscanResponse,
    address: Seq<char>,
    chain_id: i32,
    protocol: Option<Seq<char>>,
) -> bool {
    let entry = response.result@[0];
    &&& c.address@ == lower_of(address)
    &&& c.chain@ == chain_name(chain_id)
    &&& c.chain_id == chain_id
    &&& c.name@ == entry.contract_name@
    &&& c.symbol is None
    &&& c.source_code@ == entry.source_code@
    &&& c.abi@ == entry.abi@
    &&& c.is_proxy == implementation_of(entry.implementation@) is Some
    &&& opt_view(c.implementation_address) == implementation_of(entry.implementation@)
    &&& opt_view(c.protocol) == protocol
    &&& opt_view(c.contract_type) == type_of_lowered(lower_of(entry.contract_name@))
    &&& c.version is None
}

/// Normalises the explorer's reply for `address` on `chain_id` into a record.
pub fn contract_from_response(
    response: &EtherscanResponse,
    address: &str,
    chain_id: i32,
    protocol: Option<String>,
) -> (r: Result<ContractData, FetchError>)
    ensures
        response.status@ != "1"@ ==> (r matches Err(FetchError::Api(m)) && m@
            == response.message@),
        response.status@ == "1"@ && response.result@.len() == 0 ==> (r matches Err(
            FetchError::NotFound(a),
        ) && a@ == address@),
        response.status@ == "1"@ && response.result@.len() > 0 ==> (r matches Ok(c)
            && record_matches(c, *response, address@, chain_id, opt_view(protocol))),
        r matches Ok(c) ==> c.proxy_consistent(),
{
    let success = String::from_str("1");
    if !response.status.eq(&success) {
        return Err(FetchError::Api(response.message.clone()));
    }
    if response.result.len() == 0 {
        return Err(FetchError::NotFound(String::from_str(address)));
    }
    let entry = &response.result[0];
    let placeholder = String::from_str("0x");
    let is_proxy = !entry.implementation.eq(&String::new()) && !entry.implementation.eq(
        &placeholder,
    );
    let implementation_address = if is_proxy {
        Some(entry.implementation.clone())
    } else {
        None
    };
    proof {
        if entry.implementation@.len() == 0 {
            assert(entry.implementation@ =~= Seq::<char>::empty());
        }
    }
    let contract_type = detect_contract_type(entry.contract_name.as_str());
    Ok(
        ContractData {
            address: lowercase(address),
            chain: chain_id_to_name(chain_id),
            chain_id,
            name: entry.contract_name.clone(),
            symbol: None,
            source_code: entry.source_code.clone(),
            abi: entry.abi.clone(),
            is_proxy,
            implementation_address,
            protocol,
            contract_type,
            version: None,
        },
    )
}

} // verus!
