use graph_node::capabilities::NodeCapabilities;
use graph_node::network_args::{
    connect_networks, parse_ethereum_networks, parse_network, NetworkArgError,
};
use graph_node::networks::{AdapterError, ConnectionType};

fn strings(items: &[&str]) -> Vec<String> {
    items.iter().map(|s| s.to_string()).collect()
}

const ALL: NodeCapabilities = NodeCapabilities {
    archive: true,
    traces: true,
};

fn accepted(arg: &str) -> (String, NodeCapabilities, String) {
    let network = parse_network(arg, ConnectionType::RPC).unwrap();
    assert_eq!(network.endpoint.connection_type, ConnectionType::RPC);
    (network.name, network.capabilities, network.endpoint.url)
}

fn refused(arg: &str) -> NetworkArgError {
    parse_network(arg, ConnectionType::RPC).unwrap_err()
}

#[test]
fn correctly_parse_ethereum_networks() {
    let network_args = vec![
        "mainnet:traces:http://localhost:8545/".to_string(),
        "goerli:archive:http://localhost:8546/".to_string(),
    ];

    let ethereum_networks = parse_ethereum_networks(&network_args, ConnectionType::RPC)
        .expect("Correctly parse Ethereum network args");
    let mut network_names = ethereum_networks.names();
    network_names.sort();

    let traces = NodeCapabilities {
        archive: false,
        traces: true,
    };
    let archive = NodeCapabilities {
        archive: true,
        traces: false,
    };
    let has_mainnet_with_traces = ethereum_networks
        .adapter_with_capabilities("mainnet", &traces)
        .is_ok();
    let has_goerli_with_archive = ethereum_networks
        .adapter_with_capabilities("goerli", &archive)
        .is_ok();
    let has_mainnet_with_archive = ethereum_networks
        .adapter_with_capabilities("mainnet", &archive)
        .is_ok();
    let has_goerli_with_traces = ethereum_networks
        .adapter_with_capabilities("goerli", &traces)
        .is_ok();

    assert_eq!(has_mainnet_with_traces, true);
    assert_eq!(has_goerli_with_archive, true);
    assert_eq!(has_mainnet_with_archive, false);
    assert_eq!(has_goerli_with_traces, false);

    let goerli_capability = ethereum_networks
        .get("goerli")
        .unwrap()
        .adapters
        .iter()
        .next()
        .unwrap()
        .capabilities;
    let mainnet_capability = ethereum_networks
        .get("mainnet")
        .unwrap()
        .adapters
        .iter()
        .next()
        .unwrap()
        .capabilities;
    assert_eq!(
        network_names,
        vec!["goerli".to_string(), "mainnet".to_string()]
    );
    assert_eq!(goerli_capability, archive);
    assert_eq!(mainnet_capability, traces);
}

#[test]
fn full_form_gives_name_capabilities_and_url() {
    assert_eq!(
        accepted("mainnet:archive,traces:https://node:8545/x:y"),
        (
            "mainnet".to_string(),
            ALL,
            "https://node:8545/x:y".to_string()
        )
    );
    let ipc = parse_network("mainnet:archive:/var/geth.ipc", ConnectionType::IPC).unwrap();
    assert_eq!(ipc.endpoint.connection_type, ConnectionType::IPC);
    assert_eq!(ipc.endpoint.url, "/var/geth.ipc");
    // Nothing asks for the URL to be there.
    assert_eq!(accepted("mainnet:traces:").2, "");
}

#[test]
fn missing_capabilities_mean_all_of_them() {
    for arg in ["a::http://h/", "a:http://h/"] {
        assert_eq!(
            accepted(arg),
            ("a".to_string(), ALL, "http://h/".to_string())
        );
    }
    for url in ["https://h", "ws://h", "wss://h"] {
        assert_eq!(
            accepted(&format!("a:{}", url)),
            ("a".to_string(), ALL, url.to_string())
        );
    }
}

#[test]
fn unknown_capabilities_grant_nothing() {
    let none = NodeCapabilities {
        archive: false,
        traces: false,
    };
    assert_eq!(accepted("a:Archive, traces:u").1, none);
    assert_eq!(accepted("a:debug,traces:u").1.traces, true);
    // A lone `ws` URL is read as a network named `ws`.
    assert_eq!(
        accepted("ws://host:8546"),
        ("ws".to_string(), none, "8546".to_string())
    );
}

#[test]
fn bare_urls_are_refused() {
    for arg in ["wss://h:1", "http://h:1/", "https://h", "http://"] {
        let error = refused(arg);
        assert_eq!(error, NetworkArgError::BareUrl);
        assert_eq!(
            error.message(),
            "Is your Ethereum node string missing a network name? \
             Try 'mainnet:' + the Ethereum node URL."
        );
    }
}

#[test]
fn arguments_without_two_colons_are_refused() {
    for arg in ["", "mainnet", "mainnet:", "mainnet:/path/geth.ipc"] {
        let error = refused(arg);
        assert_eq!(error, NetworkArgError::MissingPart);
        assert_eq!(
            error.message(),
            "A network name must be provided alongside the Ethereum node location. \
             Try e.g. 'mainnet:URL'."
        );
    }
}

#[test]
fn empty_names_are_refused() {
    for arg in [":", ":archive:http://h", "::http://h"] {
        let error = refused(arg);
        assert_eq!(error, NetworkArgError::EmptyName);
        assert_eq!(
            error.message(),
            "Ethereum network name cannot be an empty string"
        );
    }
}

#[test]
fn the_first_wrong_argument_decides() {
    let args = strings(&["a:archive:u", ":x:y", "http://h", "b"]);
    assert_eq!(
        parse_ethereum_networks(&args, ConnectionType::WS).unwrap_err(),
        NetworkArgError::EmptyName
    );
    assert!(parse_ethereum_networks(&strings(&[]), ConnectionType::WS)
        .unwrap()
        .names()
        .is_empty());
}

#[test]
fn nodes_of_one_network_keep_their_order() {
    let args = strings(&["a:archive:1", "b::2", "a:traces:3", "a:archive:4"]);
    let table = parse_ethereum_networks(&args, ConnectionType::RPC).unwrap();
    assert_eq!(table.names(), strings(&["a", "b"]));
    let urls: Vec<&str> = table.get("a").unwrap().adapters.iter()
        .map(|n| n.endpoint.url.as_str())
        .collect();
    assert_eq!(urls, vec!["1", "3", "4"]);
}

#[test]
fn kinds_of_connection_are_put_together() {
    let rpc = strings(&["a:archive:rpc1", "b:archive,traces:rpc2", "b:x:rpc3"]);
    let ipc = strings(&["c:traces:ipc1"]);
    let ws = strings(&["a:traces:ws1"]);
    let table = connect_networks(&rpc, &ipc, &ws).unwrap();
    assert_eq!(table.names(), strings(&["a", "b", "c"]));
    let flat: Vec<(String, String, ConnectionType)> = table
        .flatten()
        .into_iter()
        .map(|(name, _, e)| (name, e.url, e.connection_type))
        .collect();
    assert_eq!(
        flat,
        vec![
            ("a".to_string(), "ws1".to_string(), ConnectionType::WS),
            ("b".to_string(), "rpc3".to_string(), ConnectionType::RPC),
            ("b".to_string(), "rpc2".to_string(), ConnectionType::RPC),
            ("c".to_string(), "ipc1".to_string(), ConnectionType::IPC),
        ]
    );
    assert_eq!(
        table
            .adapter_with_capabilities("a", &ALL)
            .unwrap_err(),
        AdapterError::MissingCapabilities
    );
    assert_eq!(
        connect_networks(&rpc, &strings(&["oops"]), &strings(&[":"])).unwrap_err(),
        NetworkArgError::MissingPart
    );
}
