use contract_fetch::classify::{contract_type_of_lowered, detect_contract_type};
use contract_fetch::etherscan::{contract_from_response, FetchError};
use contract_fetch::importer::count_imported;
use contract_fetch::models::{
    chain_id_to_name, ContractData, ContractMetadata, CuratedAddress, EtherscanContract,
    EtherscanResponse,
};
use contract_fetch::pipeline::FetchRun;
use contract_fetch::stats::{chain_breakdown, chain_counts, contract_stats, protocol_breakdown};

fn record(address: &str, chain_id: i32, protocol: Option<&str>, proxy: bool) -> ContractData {
    ContractData {
        address: address.to_string(),
        chain: chain_id_to_name(chain_id),
        chain_id,
        name: format!("Contract{}", address),
        symbol: None,
        source_code: String::new(),
        abi: "[]".to_string(),
        is_proxy: proxy,
        implementation_address: if proxy { Some("0xbeef".to_string()) } else { None },
        protocol: protocol.map(|p| p.to_string()),
        contract_type: None,
        version: None,
    }
}

fn entry(name: &str, implementation: &str) -> EtherscanContract {
    EtherscanContract {
        source_code: "contract X {}".to_string(),
        abi: "[{\"type\":\"function\"}]".to_string(),
        contract_name: name.to_string(),
        compiler_version: "v0.8.20".to_string(),
        optimization_used: "1".to_string(),
        runs: "200".to_string(),
        constructor_arguments: String::new(),
        evm_version: "Default".to_string(),
        library: String::new(),
        license_type: "MIT".to_string(),
        proxy: if implementation.is_empty() { "0".to_string() } else { "1".to_string() },
        implementation: implementation.to_string(),
        swarm_source: String::new(),
    }
}

fn reply(status: &str, message: &str, result: Vec<EtherscanContract>) -> EtherscanResponse {
    EtherscanResponse { status: status.to_string(), message: message.to_string(), result }
}

#[test]
fn blank_and_comment_lines_yield_nothing() {
    for line in ["", "   ", "\t", "# only a comment", "   # indented comment", "#0xabc,1"] {
        assert!(CuratedAddress::from_line(line).is_none(), "line {:?}", line);
    }
}

#[test]
fn address_and_chain_line() {
    let a = CuratedAddress::from_line("0xAbC,1").unwrap();
    assert_eq!(a.address, "0xAbC");
    assert_eq!(a.chain_id, 1);
    assert_eq!(a.protocol, None);
}

#[test]
fn line_with_protocol_and_comment() {
    let a = CuratedAddress::from_line("  0xdef , 8453 ,  aerodrome  # main pool").unwrap();
    assert_eq!(a.address, "0xdef");
    assert_eq!(a.chain_id, 8453);
    assert_eq!(a.protocol, Some("aerodrome".to_string()));
}

#[test]
fn extra_fields_are_ignored() {
    let a = CuratedAddress::from_line("0x1,10,velodrome,extra").unwrap();
    assert_eq!(a.protocol, Some("velodrome".to_string()));
    assert_eq!(a.chain_id, 10);
}

#[test]
fn non_integer_chain_id_yields_nothing() {
    assert!(CuratedAddress::from_line("0xabc,notanumber").is_none());
    assert!(CuratedAddress::from_line("0xabc,1.5").is_none());
    assert!(CuratedAddress::from_line("0xabc,").is_none());
    assert!(CuratedAddress::from_line("0xabc,99999999999").is_none());
}

#[test]
fn single_token_line_yields_nothing() {
    assert!(CuratedAddress::from_line("0xabc").is_none());
}

#[test]
fn signed_chain_ids_parse() {
    assert_eq!(CuratedAddress::from_line("0xabc,+5").unwrap().chain_id, 5);
    assert_eq!(CuratedAddress::from_line("0xabc,-7").unwrap().chain_id, -7);
}

#[test]
fn chain_names() {
    assert_eq!(chain_id_to_name(999999), "chain_999999");
    assert_eq!(chain_id_to_name(137), "polygon");
    assert_eq!(chain_id_to_name(1), "ethereum");
    assert_eq!(chain_id_to_name(10), "optimism");
    assert_eq!(chain_id_to_name(42161), "arbitrum");
    assert_eq!(chain_id_to_name(8453), "base");
    assert_eq!(chain_id_to_name(-3), "chain_-3");
    assert_eq!(chain_id_to_name(0), "chain_0");
}

#[test]
fn classify_factory_before_pool() {
    assert_eq!(detect_contract_type("UniswapV2Factory"), Some("Factory".to_string()));
    assert_eq!(detect_contract_type("PoolFactory"), Some("Factory".to_string()));
}

#[test]
fn classify_priority_and_case() {
    assert_eq!(detect_contract_type("TransparentUpgradeableProxy"), Some("Proxy".to_string()));
    assert_eq!(detect_contract_type("FACTORYPROXY"), Some("Proxy".to_string()));
    assert_eq!(detect_contract_type("SwapRouter02"), Some("Router".to_string()));
    assert_eq!(detect_contract_type("UniswapV3Pool"), Some("Pool".to_string()));
    assert_eq!(detect_contract_type("YearnVault"), Some("Vault".to_string()));
    assert_eq!(detect_contract_type("ERC20Token"), Some("Token".to_string()));
    assert_eq!(detect_contract_type("Multicall3"), None);
    assert_eq!(detect_contract_type(""), None);
}

#[test]
fn classify_lowered_name() {
    assert_eq!(contract_type_of_lowered("uniswapv2factory"), Some("Factory".to_string()));
    assert_eq!(contract_type_of_lowered("UniswapV2Factory"), None);
}

#[test]
fn api_error_carries_message() {
    let r = contract_from_response(&reply("0", "NOTOK", vec![]), "0xabc", 1, None);
    match r {
        Err(FetchError::Api(m)) => assert_eq!(m, "NOTOK"),
        other => panic!("unexpected {:?}", other),
    }
}

#[test]
fn empty_result_is_not_found() {
    let r = contract_from_response(&reply("1", "OK", vec![]), "0xAbc", 1, None);
    match r {
        Err(FetchError::NotFound(a)) => assert_eq!(a, "0xAbc"),
        other => panic!("unexpected {:?}", other),
    }
}

#[test]
fn proxy_record_from_reply() {
    let r = contract_from_response(
        &reply("1", "OK", vec![entry("TransparentUpgradeableProxy", "0xImpl")]),
        "0xABCdef",
        42161,
        Some("aave".to_string()),
    )
    .unwrap();
    assert_eq!(r.address, "0xabcdef");
    assert_eq!(r.chain, "arbitrum");
    assert_eq!(r.chain_id, 42161);
    assert_eq!(r.name, "TransparentUpgradeableProxy");
    assert!(r.is_proxy);
    assert_eq!(r.implementation_address, Some("0xImpl".to_string()));
    assert_eq!(r.protocol, Some("aave".to_string()));
    assert_eq!(r.contract_type, Some("Proxy".to_string()));
    assert_eq!(r.symbol, None);
    assert_eq!(r.version, None);
    assert_eq!(r.source_code, "contract X {}");
    assert_eq!(r.abi, "[{\"type\":\"function\"}]");
}

#[test]
fn placeholder_implementation_is_not_a_proxy() {
    for implementation in ["", "0x"] {
        let r = contract_from_response(
            &reply("1", "OK", vec![entry("UniswapV2Factory", implementation)]),
            "0xabc",
            1,
            None,
        )
        .unwrap();
        assert!(!r.is_proxy);
        assert_eq!(r.implementation_address, None);
        assert_eq!(r.contract_type, Some("Factory".to_string()));
        assert_eq!(r.chain, "ethereum");
    }
}

#[test]
fn proxy_flag_matches_implementation() {
    for implementation in ["", "0x", "0x1234", "x"] {
        let r = contract_from_response(
            &reply("1", "OK", vec![entry("Thing", implementation)]),
            "0xabc",
            7,
            None,
        )
        .unwrap();
        assert_eq!(r.is_proxy, r.implementation_address.is_some());
        assert_eq!(r.chain, "chain_7");
    }
}

#[test]
fn batch_with_one_failed_record_counts_two() {
    assert_eq!(count_imported(&vec![true, false, true]), 2);
    assert_eq!(count_imported(&vec![]), 0);
    assert_eq!(count_imported(&vec![false, false]), 0);
}

#[test]
fn run_with_one_missing_address() {
    let mut run = FetchRun::new(2);
    let mut sunk: Vec<ContractData> = Vec::new();
    for k in 0..5 {
        let outcome = if k == 2 {
            Err(FetchError::NotFound(format!("0x{}", k)))
        } else {
            Ok(record(&format!("0x{}", k), 1, None, false))
        };
        if let Some(batch) = run.record(outcome) {
            sunk.extend(batch);
        }
    }
    if let Some(batch) = run.finish() {
        sunk.extend(batch);
    }
    let addresses: Vec<&str> = sunk.iter().map(|c| c.address.as_str()).collect();
    assert_eq!(addresses, vec!["0x0", "0x1", "0x3", "0x4"]);
    assert_eq!(run.attempted, 5);
    assert_eq!(run.succeeded, 4);
    assert_eq!(run.failed, 1);
}

#[test]
fn batches_flush_at_batch_size() {
    let mut run = FetchRun::new(2);
    assert!(run.record(Ok(record("0xa", 1, None, false))).is_none());
    let batch = run.record(Ok(record("0xb", 1, None, false))).unwrap();
    assert_eq!(batch.len(), 2);
    assert!(run.record(Err(FetchError::Transport("down".to_string()))).is_none());
    assert!(run.record(Ok(record("0xc", 1, None, false))).is_none());
    let rest = run.finish().unwrap();
    assert_eq!(rest.len(), 1);
    assert_eq!(rest[0].address, "0xc");
    assert!(run.finish().is_none());
    run.record_imported(2);
    run.record_imported(1);
    assert_eq!(run.imported, 3);
}

#[test]
fn stats_counts() {
    let mut with_symbol = record("0x1", 1, Some("uniswap"), true);
    with_symbol.symbol = Some("UNI".to_string());
    let contracts = vec![
        with_symbol,
        record("0x2", 137, Some("aave"), false),
        record("0x3", 137, Some("aave"), true),
        record("0x4", 137, None, false),
    ];
    let s = contract_stats(&contracts);
    assert_eq!(s.total, 4);
    assert_eq!(s.with_symbol, 1);
    assert_eq!(s.proxies, 2);
    assert_eq!(s.with_protocol, 3);
    assert_eq!(chain_counts(&contracts), vec![(1, 1), (137, 3)]);
    assert_eq!(chain_breakdown(&contracts), vec![(137, 3), (1, 1)]);
    assert_eq!(
        protocol_breakdown(&contracts),
        vec![("aave".to_string(), 2), ("uniswap".to_string(), 1)]
    );
}

#[test]
fn stats_of_nothing() {
    let s = contract_stats(&vec![]);
    assert_eq!(s.total, 0);
    assert!(chain_breakdown(&vec![]).is_empty());
    assert!(protocol_breakdown(&vec![]).is_empty());
}

#[test]
fn metadata_rows() {
    let row = |fields: &[&str]| fields.iter().map(|f| f.to_string()).collect::<Vec<String>>();
    let a = CuratedAddress::from_metadata_row(&row(&[
        "0xabc", "base", "8453", "Pool", "", "false", "", "aerodrome", "Pool", "", "0", "0",
    ]))
    .unwrap();
    assert_eq!(a.address, "0xabc");
    assert_eq!(a.chain_id, 8453);
    assert_eq!(a.protocol, Some("aerodrome".to_string()));
    let b = CuratedAddress::from_metadata_row(&row(&["0xdef", "x", "oops"])).unwrap();
    assert_eq!(b.chain_id, 1);
    assert_eq!(b.protocol, None);
    assert!(CuratedAddress::from_metadata_row(&row(&["abc", "x", "1"])).is_none());
    assert!(CuratedAddress::from_metadata_row(&row(&["", "x", "1"])).is_none());
    assert!(CuratedAddress::from_metadata_row(&row(&[])).is_none());
}

#[test]
fn metadata_from_record() {
    let m = ContractMetadata::from(record("0x9", 10, Some("velodrome"), true));
    assert_eq!(m.address, "0x9");
    assert_eq!(m.chain, "optimism");
    assert_eq!(m.chain_id, 10);
    assert!(m.is_proxy);
    assert_eq!(m.implementation_address, Some("0xbeef".to_string()));
    assert_eq!(m.protocol, Some("velodrome".to_string()));
}
