//! The records that flow through a fetch run, and the curated address list format.

use vstd::prelude::*;
use vstd::string::*;
use crate::text::{
    lacks, lemma_split_joined, lemma_split_without_sep, lemma_trim_end_prepend,
    lemma_trim_idempotent, lemma_trim_lacks, lemma_trim_start_append, trim_end, trim_start,
    chars_of, i32_text, lemma_split_on_nonempty, parse_i32, parse_i32_spec, split_chars,
    split_on, string_of, trim, trim_chars, decimal_text,
};

verus! {

/// The view of an optional string.
pub open spec fn opt_view(o: Option<String>) -> Option<Seq<char>> {
    match o {
        Some(s) => Some(s@),
        None => None,
    }
}

/// One fetched and classified contract.
#[derive(Debug, Clone)]
pub struct ContractData {
    pub address: String,
    pub chain: String,
    pub chain_id: i32,
    pub name: String,
    pub symbol: Option<String>,
    pub source_code: String,
    pub abi: String,
    pub is_proxy: bool,
    pub implementation_address: Option<String>,
    pub protocol: Option<String>,
    pub contract_type: Option<String>,
    pub version: Option<String>,
}

impl ContractData {
    /// The proxy flag is set exactly when an implementation address is recorded.
    pub open spec fn proxy_consistent(&self) -> bool {
        self.is_proxy <==> self.implementation_address is Some
    }
}

/// A contract record without its source code and ABI.
#[derive(Debug, Clone)]
pub struct ContractMetadata {
    pub address: String,
    pub chain: String,
    pub chain_id: i32,
    pub name: String,
    pub symbol: Option<String>,
    pub is_proxy: bool,
    pub implementation_address: Option<String>,
    pub protocol: Option<String>,
    pub contract_type: Option<String>,
    pub version: Option<String>,
}

impl From<ContractData> for ContractMetadata {
    fn from(contract: ContractData) -> ContractMetadata {
        ContractMetadata {
            address: contract.address,
            chain: contract.chain,
            chain_id: contract.chain_id,
            name: contract.name,
            symbol: contract.symbol,
            is_proxy: contract.is_proxy,
            implementation_address: contract.implementation_address,
            protocol: contract.protocol,
            contract_type: contract.contract_type,
            version: contract.version,
        }
    }
}

impl vstd::std_specs::convert::FromSpecImpl<ContractData> for ContractMetadata {
    open spec fn obeys_from_spec() -> bool {
        true
    }

    open spec fn from_spec(contract: ContractData) -> ContractMetadata {
        ContractMetadata {
            address: contract.address,
            chain: contract.chain,
            chain_id: contract.chain_id,
            name: contract.name,
            symbol: contract.symbol,
            is_proxy: contract.is_proxy,
            implementation_address: contract.implementation_address,
            protocol: contract.protocol,
            contract_type: contract.contract_type,
            version: contract.version,
        }
    }
}

/// The reply of the explorer's source-code endpoint.
#[derive(Debug)]
pub struct EtherscanResponse {
    pub status: String,
    pub message: String,
    pub result: Vec<EtherscanContract>,
}

/// One entry of an explorer reply.
#[derive(Debug)]
pub struct EtherscanContract {
    pub source_code: String,
    pub abi: String,
    pub contract_name: String,
    pub compiler_version: String,
    pub optimization_used: String,
    pub runs: String,
    pub constructor_arguments: String,
    pub evm_version: String,
    pub library: String,
    pub license_type: String,
    pub proxy: String,
    pub implementation: String,
    pub swarm_source: String,
}

/// One entry of the curated address list.
#[derive(Debug)]
pub struct CuratedAddress {
    pub address: String,
    pub chain_id: i32,
    pub protocol: Option<String>,
}

impl View for CuratedAddress {
    type V = (Seq<char>, i32, Option<Seq<char>>);

    open spec fn view(&self) -> Self::V {
        (self.address@, self.chain_id, opt_view(self.protocol))
    }
}

/// A line with its comment cut off and surrounding whitespace removed.
pub open spec fn line_body(line: Seq<char>) -> Seq<char> {
    trim(split_on(line, '#')[0])
}

/// The entry a line of the address list describes, if any:
/// `address,chain_id[,protocol]`, each field trimmed, the chain id an `i32`.
pub open spec fn curated_of(line: Seq<char>) -> Option<(Seq<char>, i32, Option<Seq<char>>)> {
    let body = line_body(line);
    let parts = split_on(body, ',');
    if body.len() == 0 || parts.len() < 2 {
        None
    } else {
        match parse_i32_spec(trim(parts[1])) {
            None => None,
            Some(id) => Some(
                (
                    trim(parts[0]),
                    id,
                    if parts.len() > 2 {
                        Some(trim(parts[2]))
                    } else {
                        None
                    },
                ),
            ),
        }
    }
}

impl CuratedAddress {
    /// Parses one line of the address list; comments, blank and malformed lines give `None`.
    pub fn from_line(line: &str) -> (r: Option<CuratedAddress>)
        ensures
            match r {
                Some(a) => curated_of(line@) == Some(a@),
                None => curated_of(line@) is None,
            },
    {
        let chars = chars_of(line);
        proof {
            lemma_split_on_nonempty(chars@, '#');
        }
        let pieces = split_chars(&chars, '#');
        let body = trim_chars(&pieces[0]);
        if body.len() == 0 {
            return None;
        }
        let parts = split_chars(&body, ',');
        if parts.len() < 2 {
            return None;
        }
        let address = trim_chars(&parts[0]);
        let id_text = trim_chars(&parts[1]);
        let chain_id = match parse_i32(string_of(&id_text).as_str()) {
            Some(v) => v,
            None => {
                return None;
            },
        };
        let protocol = if parts.len() > 2 {
            Some(string_of(&trim_chars(&parts[2])))
        } else {
            None
        };
        Some(CuratedAddress { address: string_of(&address), chain_id, protocol })
    }
}


/// A line that is blank once its comment is cut off describes no entry.
pub proof fn lemma_blank_line_yields_nothing(line: Seq<char>)
    requires
        line_body(line).len() == 0,
    ensures
        curated_of(line) is None,
{
}

/// The body of the line `address,chain_id` splits into the address without
/// leading white space and the chain field without trailing white space.
proof fn lemma_two_field_parts(address: Seq<char>, chain: Seq<char>)
    requires
        lacks(address, ','),
        lacks(address, '#'),
        lacks(chain, ','),
        lacks(chain, '#'),
    ensures
        line_body(address.push(',') + chain).len() > 0,
        split_on(line_body(address.push(',') + chain), ',') == seq![
            trim_start(address),
            trim_end(chain),
        ],
        trim(trim_start(address)) == trim(address),
        trim(trim_end(chain)) == trim(chain),
{
    let line = address.push(',') + chain;
    assert(lacks(line, '#')) by {
        assert forall|k: int| 0 <= k < line.len() implies line[k] != '#' by {
            if k < address.len() {
                assert(line[k] == address[k]);
            } else if k > address.len() {
                assert(line[k] == chain[k - address.len() - 1]);
            }
        }
    }
    lemma_split_without_sep(line, '#');
    let rest = seq![','] + chain;
    assert(line =~= address + rest);
    lemma_trim_start_append(address, rest);
    let head = trim_start(address);
    assert(head + rest =~= head.push(',') + chain);
    lemma_trim_end_prepend(head.push(','), chain);
    let body = head.push(',') + trim_end(chain);
    assert(line_body(line) == body);
    lemma_trim_lacks(address, ',');
    lemma_trim_lacks(chain, ',');
    lemma_split_joined(head, trim_end(chain), ',');
    lemma_split_without_sep(head, ',');
    assert(split_on(body, ',') =~= seq![head, trim_end(chain)]);
    lemma_trim_idempotent(address);
    lemma_trim_idempotent(chain);
}

/// A line `address,chain_id` whose chain id reads as an `i32` gives exactly
/// one entry: the trimmed address, that id, and no protocol.
pub proof fn lemma_address_chain_line(address: Seq<char>, chain: Seq<char>, id: i32)
    requires
        lacks(address, ','),
        lacks(address, '#'),
        lacks(chain, ','),
        lacks(chain, '#'),
        parse_i32_spec(trim(chain)) == Some(id),
    ensures
        curated_of(address.push(',') + chain) == Some((trim(address), id, None::<Seq<char>>)),
{
    lemma_two_field_parts(address, chain);
}

/// A line `address,chain_id` whose chain id does not read as an `i32` gives
/// nothing.
pub proof fn lemma_bad_chain_id_yields_nothing(address: Seq<char>, chain: Seq<char>)
    requires
        lacks(address, ','),
        lacks(address, '#'),
        lacks(chain, ','),
        lacks(chain, '#'),
        parse_i32_spec(trim(chain)) is None,
    ensures
        curated_of(address.push(',') + chain) is None,
{
    lemma_two_field_parts(address, chain);
}

/// A line `address,chain_id,protocol` whose chain id reads as an `i32` gives
/// exactly one entry, with the protocol set to the trimmed third field.
pub proof fn lemma_address_chain_protocol_line(
    address: Seq<char>,
    chain: Seq<char>,
    protocol: Seq<char>,
    id: i32,
)
    requires
        lacks(address, ','),
        lacks(address, '#'),
        lacks(chain, ','),
        lacks(chain, '#'),
        lacks(protocol, ','),
        lacks(protocol, '#'),
        parse_i32_spec(trim(chain)) == Some(id),
    ensures
        curated_of((address.push(',') + chain).push(',') + protocol) == Some(
            (trim(address), id, Some(trim(protocol))),
        ),
{
    let line = (address.push(',') + chain).push(',') + protocol;
    assert(lacks(line, '#')) by {
        assert forall|k: int| 0 <= k < line.len() implies line[k] != '#' by {
            if k < address.len() {
                assert(line[k] == address[k]);
            } else if address.len() < k < address.len() + 1 + chain.len() {
                assert(line[k] == chain[k - address.len() - 1]);
            } else if k > address.len() + 1 + chain.len() {
                assert(line[k] == protocol[k - address.len() - 2 - chain.len()]);
            }
        }
    }
    lemma_split_without_sep(line, '#');
    let rest = (seq![','] + chain).push(',') + protocol;
    assert(line =~= address + rest);
    lemma_trim_start_append(address, rest);
    let head = trim_start(address);
    let front = (head.push(',') + chain).push(',');
    assert(head + rest =~= front + protocol);
    lemma_trim_end_prepend(front, protocol);
    let body = front + trim_end(protocol);
    assert(line_body(line) == body);
    lemma_trim_lacks(address, ',');
    lemma_trim_lacks(protocol, ',');
    lemma_split_joined(head.push(',') + chain, trim_end(protocol), ',');
    lemma_split_joined(head, chain, ',');
    lemma_split_without_sep(head, ',');
    assert(split_on(body, ',') =~= seq![head, chain, trim_end(protocol)]);
    lemma_trim_idempotent(address);
    lemma_trim_idempotent(protocol);
}

/// The entry a row of a metadata table names: its address (column 0) when that
/// starts with `0x`, its chain id (column 2, `1` when absent or unreadable)
/// and its protocol (column 7, when the row has one).
pub open spec fn metadata_entry(fields: Seq<Seq<char>>) -> Option<(Seq<char>, i32, Option<Seq<char>>)> {
    let address = if fields.len() > 0 {
        fields[0]
    } else {
        Seq::empty()
    };
    let chain_id = if fields.len() > 2 {
        match parse_i32_spec(fields[2]) {
            Some(id) => id,
            None => 1i32,
        }
    } else {
        1i32
    };
    let protocol = if fields.len() > 7 {
        Some(fields[7])
    } else {
        None
    };
    if address.len() >= 2 && address[0] == '0' && address[1] == 'x' {
        Some((address, chain_id, protocol))
    } else {
        None
    }
}

impl CuratedAddress {
    /// Reads the address entry of one row of a metadata table; rows whose
    /// address does not start with `0x` give `None`.
    pub fn from_metadata_row(fields: &Vec<String>) -> (r: Option<CuratedAddress>)
        ensures
            match r {
                Some(a) => metadata_entry(fields@.map_values(|f: String| f@)) == Some(a@),
                None => metadata_entry(fields@.map_values(|f: String| f@)) is None,
            },
    {
        let ghost views = fields@.map_values(|f: String| f@);
        if fields.len() == 0 {
            return None;
        }
        let address_chars = chars_of(fields[0].as_str());
        if !(address_chars.len() >= 2 && address_chars[0] == '0' && address_chars[1] == 'x') {
            return None;
        }
        let chain_id: i32 = if fields.len() > 2 {
            match parse_i32(fields[2].as_str()) {
                Some(id) => id,
                None => 1,
            }
        } else {
            1
        };
        let protocol = if fields.len() > 7 {
            Some(fields[7].clone())
        } else {
            None
        };
        assert(views[0] == fields@[0]@);
        Some(CuratedAddress { address: fields[0].clone(), chain_id, protocol })
    }
}

/// The display name of a chain: a fixed table, else `chain_<id>`.
pub open spec fn chain_name(chain_id: i32) -> Seq<char> {
    if chain_id == 1 {
        "ethereum"@
    } else if chain_id == 10 {
        "optimism"@
    } else if chain_id == 42161 {
        "arbitrum"@
    } else if chain_id == 8453 {
        "base"@
    } else if chain_id == 137 {
        "polygon"@
    } else {
        "chain_"@ + decimal_text(chain_id as int)
    }
}

/// The display name of a chain id; unknown ids get `chain_<id>`.
pub fn chain_id_to_name(chain_id: i32) -> (r: String)
    ensures
        r@ == chain_name(chain_id),
{
    match chain_id {
        1 => String::from_str("ethereum"),
        10 => String::from_str("optimism"),
        42161 => String::from_str("arbitrum"),
        8453 => String::from_str("base"),
        137 => String::from_str("polygon"),
        _ => {
            let mut name = String::from_str("chain_");
            let digits = i32_text(chain_id);
            name.append(digits.as_str());
            name
        },
    }
}

} // verus!
