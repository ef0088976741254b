use graph_node::indexing::{block_ingestors, network_indexers, TooFewAncestors};
use graph_node::network_args::connect_networks;
use graph_node::networks::EthereumNetworks;
use graph_node::text::{remove_all, split_on};

fn strings(items: &[&str]) -> Vec<String> {
    items.iter().map(|s| s.to_string()).collect()
}

fn table() -> EthereumNetworks {
    let rpc = strings(&["mainnet:archive:1", "mainnet:none:2", "goerli::3"]);
    connect_networks(&rpc, &Vec::new(), &Vec::new()).unwrap()
}

#[test]
fn ethereum_networks_are_indexed() {
    let subgraphs = strings(&["ethereum/goerli", "bitcoin/main", "ethereum/mainnet"]);
    let indexers = network_indexers(&table(), &subgraphs).unwrap();
    let found: Vec<(&str, &str, &str)> = indexers
        .iter()
        .map(|i| (i.network.as_str(), i.endpoint.url.as_str(), i.subgraph.as_str()))
        .collect();
    assert_eq!(
        found,
        vec![
            ("goerli", "3", "network/ethereum/goerli"),
            ("mainnet", "2", "network/ethereum/mainnet"),
        ]
    );
}

#[test]
fn networks_without_a_node_are_reported() {
    let subgraphs = strings(&["ethereum/mainnet", "ethereum/kovan", "ethereum/other"]);
    let unserved = network_indexers(&table(), &subgraphs).unwrap_err();
    assert_eq!(unserved.network, "kovan");
    assert_eq!(unserved.message(), "adapter for network, kovan");
}

#[test]
fn removal_is_that_of_the_standard_library() {
    for text in ["", "ethereum/", "ethereum/ethereum/a", "ethereethereum/um/x", "ethereum"] {
        assert_eq!(remove_all(text, "ethereum/"), text.replace("ethereum/", ""));
    }
    for text in ["", ",", "a", "a,b", ",a,,b,"] {
        let expected: Vec<String> = text.split(',').map(|s| s.to_string()).collect();
        assert_eq!(split_on(text, ','), expected);
    }
}

#[test]
fn every_network_is_ingested() {
    let nodes: Vec<(String, String)> = block_ingestors(&table(), false, 50, 50)
        .unwrap()
        .into_iter()
        .map(|(name, endpoint)| (name, endpoint.url))
        .collect();
    assert_eq!(
        nodes,
        vec![
            ("mainnet".to_string(), "2".to_string()),
            ("goerli".to_string(), "3".to_string()),
        ]
    );
}

#[test]
fn ingestion_keeps_enough_ancestors() {
    assert_eq!(
        block_ingestors(&table(), false, 49, 50).unwrap_err(),
        TooFewAncestors
    );
    assert!(block_ingestors(&table(), true, 49, 50).unwrap().is_empty());
}
