//! Which networks are indexed, from which nodes, and into which subgraphs.

use crate::indexing;
use crate::networks::NetworksModel;
use crate::text;
use vstd::prelude::*;

verus! {

/// The network subgraphs of Ethereum networks, in their order.
pub open spec fn of_ethereum(network_subgraphs: Seq<Seq<char>>) -> Seq<Seq<char>> {
    network_subgraphs.filter(|s: Seq<char>| "ethereum/"@.is_prefix_of(s))
}

/// There is an indexer for each network subgraph that begins with `ethereum/`, in their order and
/// for no other. Each is for the network that the rest of the subgraph's name gives, reads from
/// that network's first node, and writes to `network/` and the subgraph's name.
pub proof fn every_ethereum_network_is_indexed(
    table: NetworksModel,
    network_subgraphs: Seq<Seq<char>>,
)
    ensures
        indexing::indexers_of(table, network_subgraphs) matches Ok(indexers) ==> {
            let subgraphs = network_subgraphs.filter(
                |s: Seq<char>| "ethereum/"@.is_prefix_of(s),
            );
            &&& indexers.len() == subgraphs.len()
            &&& forall|k: int|
                0 <= k < subgraphs.len() ==> {
                    let network = text::without(subgraphs[k], "ethereum/"@);
                    &&& (#[trigger] indexers[k]).network == network
                    &&& table.adapters.contains_key(network)
                    &&& indexers[k].endpoint == table.adapters[network][0].endpoint
                    &&& indexers[k].subgraph == "network/"@ + subgraphs[k]
                }
        },
        of_ethereum(network_subgraphs) == network_subgraphs.filter(
            |s: Seq<char>| "ethereum/"@.is_prefix_of(s),
        ),
    decreases network_subgraphs.len(),
{
    reveal(Seq::filter);
    if network_subgraphs.len() > 0 {
        every_ethereum_network_is_indexed(table, network_subgraphs.drop_last());
    }
}

/// Indexing fails if and only if an Ethereum network that is to be indexed is not in the table;
/// and then the first such network is named.
pub proof fn the_first_unserved_network_is_named(
    table: NetworksModel,
    network_subgraphs: Seq<Seq<char>>,
)
    ensures
        indexing::indexers_of(table, network_subgraphs) is Ok <==> forall|k: int|
            0 <= k < of_ethereum(network_subgraphs).len() ==> table.adapters.contains_key(
                text::without(#[trigger] of_ethereum(network_subgraphs)[k], "ethereum/"@),
            ),
        indexing::indexers_of(table, network_subgraphs) matches Err(network)
            ==> !table.adapters.contains_key(network) && exists|k: int|
            0 <= k < of_ethereum(network_subgraphs).len() && network == text::without(
                #[trigger] of_ethereum(network_subgraphs)[k],
                "ethereum/"@,
            ) && forall|j: int|
                0 <= j < k ==> table.adapters.contains_key(
                    text::without(#[trigger] of_ethereum(network_subgraphs)[j], "ethereum/"@),
                ),
    decreases network_subgraphs.len(),
{
    reveal(Seq::filter);
    if network_subgraphs.len() > 0 {
        let rest = network_subgraphs.drop_last();
        let before = of_ethereum(rest);
        let all = of_ethereum(network_subgraphs);
        the_first_unserved_network_is_named(table, rest);
        assert(forall|k: int| 0 <= k < before.len() ==> #[trigger] all[k] == before[k]);
        if indexing::indexers_of(table, rest) is Err {
            let network = indexing::indexers_of(table, rest)->Err_0;
            let k = choose|k: int|
                0 <= k < before.len() && network == text::without(
                    #[trigger] before[k],
                    "ethereum/"@,
                ) && forall|j: int|
                    0 <= j < k ==> table.adapters.contains_key(
                        text::without(#[trigger] before[j], "ethereum/"@),
                    );
            assert(all[k] == before[k]);
            assert forall|j: int| 0 <= j < k implies table.adapters.contains_key(
                text::without(#[trigger] all[j], "ethereum/"@),
            ) by {
                assert(all[j] == before[j]);
            }
        } else {
            assert forall|j: int| 0 <= j < before.len() implies table.adapters.contains_key(
                text::without(#[trigger] all[j], "ethereum/"@),
            ) by {
                assert(all[j] == before[j]);
            }
            if all.len() > before.len() {
                assert(all[before.len() as int] == network_subgraphs.last());
            }
        }
    }
}

} // verus!
