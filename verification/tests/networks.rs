use graph_node::capabilities::NodeCapabilities;
use graph_node::networks::{AdapterError, ConnectionType, EthereumEndpoint, EthereumNetworks};

fn capabilities(archive: bool, traces: bool) -> NodeCapabilities {
    NodeCapabilities { archive, traces }
}

fn endpoint(url: &str) -> EthereumEndpoint {
    EthereumEndpoint {
        connection_type: ConnectionType::RPC,
        url: url.to_string(),
    }
}

fn table(nodes: &[(&str, bool, bool, &str)]) -> EthereumNetworks {
    let mut table = EthereumNetworks::new();
    for (name, archive, traces, url) in nodes {
        table.insert(
            name.to_string(),
            capabilities(*archive, *traces),
            endpoint(url),
        );
    }
    table
}

fn urls(table: &EthereumNetworks, name: &str) -> Vec<String> {
    table.get(name).unwrap().adapters.iter()
        .map(|n| n.endpoint.url.clone())
        .collect()
}

#[test]
fn covering_compares_every_capability() {
    let sets = [
        capabilities(false, false),
        capabilities(true, false),
        capabilities(false, true),
        capabilities(true, true),
    ];
    assert!(!sets[1].meets(&sets[2]));
    assert!(!sets[2].meets(&sets[1]));
    for a in sets {
        assert!(a.meets(&a));
        assert!(a.meets(&NodeCapabilities::none()));
        assert!(NodeCapabilities::all().meets(&a));
        for b in sets {
            if a.meets(&b) && a != b {
                assert!(a.count() > b.count());
            }
        }
    }
    assert_eq!(NodeCapabilities::parse("traces,archive"), sets[3]);
    assert_eq!(NodeCapabilities::parse(""), sets[0]);
}

#[test]
fn sorting_puts_the_cheapest_first() {
    let mut t = table(&[
        ("a", true, true, "1"),
        ("a", true, false, "2"),
        ("a", false, true, "3"),
        ("a", false, false, "4"),
        ("a", true, false, "5"),
    ]);
    t.sort();
    assert_eq!(urls(&t, "a"), ["4", "2", "3", "5", "1"]);
    t.sort();
    assert_eq!(urls(&t, "a"), ["4", "2", "3", "5", "1"]);
    assert_eq!(
        t.adapter_with_capabilities("a", &capabilities(false, true))
            .unwrap()
            .url,
        "3"
    );
    assert_eq!(t.cheapest()[0].1.url, "4");
}

#[test]
fn lookups_fail_for_a_reason() {
    let t = table(&[("a", true, false, "1")]);
    assert_eq!(
        t.adapter_with_capabilities("b", &capabilities(false, false))
            .unwrap_err(),
        AdapterError::UnknownNetwork
    );
    assert_eq!(
        t.adapter_with_capabilities("a", &capabilities(false, true))
            .unwrap_err(),
        AdapterError::MissingCapabilities
    );
    assert!(t.get("b").is_none());
    assert!(EthereumNetworks::new().cheapest().is_empty());
}

#[test]
fn extending_replaces_known_networks() {
    let mut t = table(&[("a", true, false, "1"), ("b", true, false, "2")]);
    t.extend(table(&[("c", true, false, "3"), ("a", true, false, "4")]));
    assert_eq!(t.names(), ["a", "b", "c"]);
    assert_eq!(urls(&t, "a"), ["4"]);
    assert_eq!(urls(&t, "b"), ["2"]);
    t.extend(EthereumNetworks::new());
    assert_eq!(t.names(), ["a", "b", "c"]);
}

#[test]
fn flattening_lists_every_node() {
    let t = table(&[
        ("a", true, false, "1"),
        ("b", false, true, "2"),
        ("a", true, true, "3"),
    ]);
    let flat: Vec<(String, NodeCapabilities, String)> = t
        .flatten()
        .into_iter()
        .map(|(n, c, e)| (n, c, e.url))
        .collect();
    assert_eq!(
        flat,
        vec![
            ("a".to_string(), capabilities(true, false), "1".to_string()),
            ("a".to_string(), capabilities(true, true), "3".to_string()),
            ("b".to_string(), capabilities(false, true), "2".to_string()),
        ]
    );
}
