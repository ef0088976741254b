//! Which networks are indexed and ingested, and from which Ethereum nodes.

use crate::capabilities::NodeCapabilities;
use crate::networks::{EndpointModel, EthereumEndpoint, EthereumNetworks, NetworksModel};
use crate::text;
use crate::text_laws;
use vstd::prelude::*;
use vstd::string::*;

verus! {

/// What indexes a network: the node it reads from and the subgraph it writes to.
#[derive(Debug)]
pub struct NetworkIndexer {
    pub network: String,
    pub endpoint: EthereumEndpoint,
    pub subgraph: String,
}

/// The mathematical value of a `NetworkIndexer`.
#[verifier::ext_equal]
pub struct IndexerModel {
    pub network: Seq<char>,
    pub endpoint: EndpointModel,
    pub subgraph: Seq<char>,
}

impl View for NetworkIndexer {
    type V = IndexerModel;

    open spec fn view(&self) -> IndexerModel {
        IndexerModel {
            network: self.network@,
            endpoint: self.endpoint@,
            subgraph: self.subgraph@,
        }
    }
}

/// The mathematical values of a list of indexers.
pub open spec fn indexer_models(indexers: Seq<NetworkIndexer>) -> Seq<IndexerModel> {
    indexers.map_values(|i: NetworkIndexer| i@)
}

/// A network that is to be indexed, but that no Ethereum node serves.
#[derive(Debug)]
pub struct UnservedNetwork {
    pub network: String,
}

impl UnservedNetwork {
    /// What the operator is told.
    pub fn message(&self) -> (message: String)
        ensures
            message@ == "adapter for network, "@ + self.network@,
    {
        "adapter for network, ".to_string().concat(self.network.as_str())
    }
}

/// Whether a network subgraph is one of an Ethereum network.
pub open spec fn is_ethereum(network_subgraph: Seq<char>) -> bool {
    "ethereum/"@.is_prefix_of(network_subgraph)
}

/// The network of an Ethereum network subgraph.
pub open spec fn network_name(network_subgraph: Seq<char>) -> Seq<char> {
    text::without(network_subgraph, "ethereum/"@)
}

/// The indexers of a list of network subgraphs, one for each that is of an Ethereum network; or
/// the first of their networks that no node serves.
pub open spec fn indexers_of(table: NetworksModel, network_subgraphs: Seq<Seq<char>>) -> Result<
    Seq<IndexerModel>,
    Seq<char>,
>
    decreases network_subgraphs.len(),
{
    if network_subgraphs.len() == 0 {
        Ok(Seq::empty())
    } else {
        let last = network_subgraphs.last();
        match indexers_of(table, network_subgraphs.drop_last()) {
            Err(network) => Err(network),
            Ok(indexers) => if !is_ethereum(last) {
                Ok(indexers)
            } else if !table.adapters.contains_key(network_name(last)) {
                Err(network_name(last))
            } else {
                Ok(
                    indexers.push(
                        IndexerModel {
                            network: network_name(last),
                            endpoint: table.adapters[network_name(last)][0].endpoint,
                            subgraph: "network/"@ + last,
                        },
                    ),
                )
            },
        }
    }
}

/// The indexers to run. Any node of a network will do, so each reads from the network's first.
pub fn network_indexers(table: &EthereumNetworks, network_subgraphs: &Vec<String>) -> (indexers:
    Result<Vec<NetworkIndexer>, UnservedNetwork>)
    ensures
        match indexers {
            Ok(indexers) => indexers_of(table@, text::views(network_subgraphs@)) == Ok::<
                _,
                Seq<char>,
            >(indexer_models(indexers@)),
            Err(unserved) => indexers_of(table@, text::views(network_subgraphs@)) == Err::<
                Seq<IndexerModel>,
                _,
            >(unserved.network@),
        },
{
    let ghost all = text::views(network_subgraphs@);
    let mut indexers: Vec<NetworkIndexer> = Vec::new();
    let mut i: usize = 0;
    assert(all.take(0) =~= Seq::<Seq<char>>::empty());
    assert(indexer_models(indexers@) =~= Seq::<IndexerModel>::empty());
    while i < network_subgraphs.len()
        invariant
            i <= network_subgraphs@.len(),
            all == text::views(network_subgraphs@),
            indexers_of(table@, all.take(i as int)) == Ok::<_, Seq<char>>(
                indexer_models(indexers@),
            ),
        decreases network_subgraphs.len() - i,
    {
        assert(all.take(i + 1).drop_last() =~= all.take(i as int));
        assert(all.take(i + 1).last() == network_subgraphs@[i as int]@);
        let network_subgraph = network_subgraphs[i].as_str();
        if text::starts_with(network_subgraph, "ethereum/") {
            proof {
                reveal_strlit("ethereum/");
            }
            let network = text::remove_all(network_subgraph, "ethereum/");
            match table.adapter_with_capabilities(network.as_str(), &NodeCapabilities::none()) {
                Ok(endpoint) => {
                    let subgraph = "network/".to_string().concat(network_subgraph);
                    let endpoint = endpoint.copy();
                    let ghost before = indexers@;
                    let indexer = NetworkIndexer { network, endpoint, subgraph };
                    indexers.push(indexer);
                    assert(indexer_models(indexers@) =~= indexer_models(before).push(indexer@));
                },
                Err(_) => {
                    proof {
                        first_unserved_network_decides(table@, all, i + 1);
                    }
                    return Err(UnservedNetwork { network });
                },
            }
        }
        i = i + 1;
    }
    assert(all.take(i as int) =~= all);
    Ok(indexers)
}

/// Once the first `n` network subgraphs are refused, so is the whole list, for the same network.
pub proof fn first_unserved_network_decides(
    table: NetworksModel,
    network_subgraphs: Seq<Seq<char>>,
    n: int,
)
    requires
        0 <= n <= network_subgraphs.len(),
        indexers_of(table, network_subgraphs.take(n)) is Err,
    ensures
        indexers_of(table, network_subgraphs) == indexers_of(table, network_subgraphs.take(n)),
    decreases network_subgraphs.len() - n,
{
    if n == network_subgraphs.len() {
        assert(network_subgraphs.take(n) =~= network_subgraphs);
    } else {
        assert(network_subgraphs.take(n + 1).drop_last() =~= network_subgraphs.take(n));
        first_unserved_network_decides(table, network_subgraphs, n + 1);
    }
}

/// The network of `ethereum/NAME` is `NAME`, where `ethereum/` does not occur in the name.
pub proof fn network_names_follow_the_prefix(name: Seq<char>)
    requires
        forall|i: int|
            0 <= i <= name.len() ==> !"ethereum/"@.is_prefix_of(#[trigger] name.skip(i)),
    ensures
        is_ethereum("ethereum/"@ + name),
        network_name("ethereum/"@ + name) == name,
{
    let prefix = "ethereum/"@;
    reveal_strlit("ethereum/");
    assert((prefix + name).subrange(0, prefix.len() as int) =~= prefix);
    assert((prefix + name).skip(prefix.len() as int) =~= name);
    lemma_nothing_to_remove(name, prefix);
}

/// A text in which a pattern does not occur is left as it is.
proof fn lemma_nothing_to_remove(s: Seq<char>, pattern: Seq<char>)
    requires
        forall|i: int| 0 <= i <= s.len() ==> !pattern.is_prefix_of(#[trigger] s.skip(i)),
    ensures
        text::without(s, pattern) == s,
{
    text_laws::absent_patterns_remove_nothing(s, pattern);
}

/// Fewer ancestors are kept than a reorganisation of the chain can go deep.
#[derive(Clone, Copy, Debug, PartialEq, Eq, Structural)]
pub struct TooFewAncestors;

/// The nodes to ingest blocks from: for every network its first node, unless ingestion is
/// disabled. Ingestion must keep every block that a reorganisation of the chain can reach.
pub fn block_ingestors(
    table: &EthereumNetworks,
    disabled: bool,
    ancestor_count: u64,
    reorg_threshold: u64,
) -> (ingestors: Result<Vec<(String, EthereumEndpoint)>, TooFewAncestors>)
    ensures
        ingestors is Err <==> !disabled && ancestor_count < reorg_threshold,
        ingestors matches Ok(nodes) ==> if disabled {
            nodes@.len() == 0
        } else {
            &&& nodes@.len() == table@.names.len()
            &&& forall|i: int|
                0 <= i < nodes@.len() ==> (#[trigger] nodes@[i]).0@ == table@.names[i]
                    && table@.adapters.contains_key(table@.names[i]) && nodes@[i].1@
                    == table@.adapters[table@.names[i]][0].endpoint
        },
{
    if disabled {
        Ok(Vec::new())
    } else if ancestor_count < reorg_threshold {
        Err(TooFewAncestors)
    } else {
        Ok(table.cheapest())
    }
}

} // verus!
