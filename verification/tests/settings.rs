use graph_node::decimal;
use graph_node::settings::{
    cli_subgraph, elastic_config, ipfs_address, ipfs_addresses, version_switching_mode,
    BlockSetting, InvalidSetting,
};

fn pair(a: &str, b: &str) -> (String, String) {
    (a.to_string(), b.to_string())
}

#[test]
fn ipfs_addresses_get_a_scheme() {
    assert_eq!(ipfs_address("127.0.0.1:5001"), "http://127.0.0.1:5001");
    assert_eq!(ipfs_address("http://h"), "http://h");
    assert_eq!(ipfs_address("https://h"), "https://h");
    assert_eq!(ipfs_address("ftp://h"), "http://ftp://h");
    assert_eq!(ipfs_address("HTTP://h"), "http://HTTP://h");
    assert_eq!(ipfs_address(""), "http://");
    assert_eq!(ipfs_address(&ipfs_address("h")), ipfs_address("h"));
    assert_eq!(
        ipfs_addresses(&vec!["a".to_string(), "https://b".to_string()]),
        ["http://a", "https://b"]
    );
}

#[test]
fn elasticsearch_needs_an_endpoint() {
    let some = |s: &str| Some(s.to_string());
    assert!(elastic_config(None, some("u"), some("p")).is_none());
    let config = elastic_config(some("e"), some("u"), None).unwrap();
    assert_eq!(config.endpoint, "e");
    assert_eq!(config.username, some("u"));
    assert_eq!(config.password, None);
}

#[test]
fn versions_switch_at_once_by_default() {
    assert_eq!(version_switching_mode(None), "instant");
    assert_eq!(version_switching_mode(Some("synced".to_string())), "synced");
}

#[test]
fn block_settings_are_numbers() {
    let reorg = BlockSetting::ReorgThreshold;
    let ancestors = BlockSetting::AncestorCount;
    assert_eq!(reorg.read(&None), Ok(50));
    assert_eq!(ancestors.read(&None), Ok(50));
    assert_eq!(reorg.read(&Some("7".to_string())), Ok(7));
    let invalid = ancestors.read(&Some("many".to_string())).unwrap_err();
    assert_eq!(invalid, InvalidSetting { setting: ancestors });
    assert_eq!(
        invalid.message(),
        "failed to parse env var ETHEREUM_ANCESTOR_COUNT"
    );
    assert_eq!(
        InvalidSetting { setting: reorg }.message(),
        "failed to parse env var ETHEREUM_REORG_THRESHOLD"
    );
}

#[test]
fn numerals_are_read_as_the_standard_library_reads_them() {
    for text in [
        "", "+", "-", "0", "+0", "00012", "+7", "++7", "-0", "-1", " 1", "1 ", "1_0", "0x1",
        "18446744073709551615", "18446744073709551616", "99999999999999999999999",
        "000000000000000000000000000001", "1844674407370955161x", "\u{0661}",
    ] {
        assert_eq!(decimal::parse(text), text.parse::<u64>().ok(), "{:?}", text);
    }
}

#[test]
fn numerals_are_written_and_read_back() {
    for n in [0, 9, 10, 50, 101, 9999, u64::MAX] {
        assert_eq!(decimal::render(n), n.to_string());
        assert_eq!(decimal::parse(&decimal::render(n)), Some(n));
    }
}

#[test]
fn the_subgraph_argument_is_taken_apart() {
    assert_eq!(cli_subgraph("QmHash"), pair("cli", "QmHash"));
    assert_eq!(cli_subgraph("me/mine:QmHash"), pair("me/mine", "QmHash"));
    assert_eq!(cli_subgraph("a:b:c"), pair("a", "b"));
    assert_eq!(cli_subgraph(":"), pair("", ""));
    assert_eq!(cli_subgraph(""), pair("cli", ""));
}
