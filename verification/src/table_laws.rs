//! What each operation on the table of networks does to the names and the nodes in it.

use crate::capabilities::NodeCapabilities;
use crate::indexing::NetworkIndexer;
use crate::indexing;
use crate::networks::{
    AdapterModel, EthereumEndpoint, EthereumNetworkAdapter, EthereumNetworkAdapters, NetworksModel,
};
use crate::networks;
use vstd::prelude::*;

verus! {

/// The mathematical values of endpoints, nodes and lists of nodes are what their fields hold.
pub proof fn values_are_the_fields(
    endpoint: EthereumEndpoint,
    adapter: EthereumNetworkAdapter,
    adapters: EthereumNetworkAdapters,
    i: int,
)
    requires
        0 <= i < adapters.adapters@.len(),
    ensures
        endpoint@.connection_type == endpoint.connection_type,
        endpoint@.url == endpoint.url@,
        adapter@.capabilities == adapter.capabilities,
        adapter@.endpoint == adapter.endpoint@,
        adapters@.len() == adapters.adapters@.len(),
        adapters@[i] == adapters.adapters@[i]@,
{
}

/// The values of a flattened table and of a list of indexers are those of their entries.
pub proof fn lists_are_their_entries(
    all: Seq<(String, NodeCapabilities, EthereumEndpoint)>,
    indexers: Seq<NetworkIndexer>,
)
    ensures
        networks::flat_models(all).len() == all.len(),
        forall|i: int|
            0 <= i < all.len() ==> (#[trigger] networks::flat_models(all)[i]).0 == all[i].0@
                && networks::flat_models(all)[i].1.capabilities == all[i].1
                && networks::flat_models(all)[i].1.endpoint == all[i].2@,
        indexing::indexer_models(indexers).len() == indexers.len(),
        forall|i: int|
            0 <= i < indexers.len() ==> (#[trigger] indexing::indexer_models(
                indexers,
            )[i]).network == indexers[i].network@ && indexing::indexer_models(indexers)[i].endpoint
                == indexers[i].endpoint@ && indexing::indexer_models(indexers)[i].subgraph
                == indexers[i].subgraph@,
{
}

/// Inserting gives the network one node more, after those that it has, and changes no other
/// network; a network that is new comes last.
pub proof fn inserting_adds_a_node(table: NetworksModel, name: Seq<char>, adapter: AdapterModel)
    ensures
        table.inserted(name, adapter).adapters.dom() == table.adapters.dom().insert(name),
        table.inserted(name, adapter).adapters[name] == (if table.adapters.contains_key(name) {
            table.adapters[name]
        } else {
            Seq::empty()
        }).push(adapter),
        forall|other: Seq<char>|
            other != name ==> #[trigger] table.inserted(name, adapter).adapters[other]
                == table.adapters[other],
        table.inserted(name, adapter).names == (if table.names.contains(name) {
            table.names
        } else {
            table.names.push(name)
        }),
        NetworksModel::empty().names.len() == 0,
        NetworksModel::empty().adapters.dom() =~= Set::empty(),
{
    assert(table.inserted(name, adapter).adapters.dom() =~= table.adapters.dom().insert(name));
}

/// Extending adds the networks that are new, in the order of the other table and after those that
/// are known; a network of the other table has its nodes from there.
pub proof fn extending_adds_networks(a: NetworksModel, b: NetworksModel, name: Seq<char>)
    requires
        b.names.no_duplicates(),
    ensures
        a.extended(b).names == a.names + b.names.filter(|n: Seq<char>| !a.names.contains(n)),
        a.extended(b).adapters.contains_key(name) <==> a.adapters.contains_key(name)
            || b.adapters.contains_key(name),
        b.adapters.contains_key(name) ==> a.extended(b).adapters[name] == b.adapters[name],
        !b.adapters.contains_key(name) && a.adapters.contains_key(name) ==> a.extended(
            b,
        ).adapters[name] == a.adapters[name],
{
    lemma_merged(a.names, b.names);
}

/// Merging appends the names that are new.
proof fn lemma_merged(names: Seq<Seq<char>>, more: Seq<Seq<char>>)
    requires
        more.no_duplicates(),
    ensures
        networks::merged_names(names, more) == names + more.filter(
            |n: Seq<char>| !names.contains(n),
        ),
    decreases more.len(),
{
    reveal(Seq::filter);
    let new = |n: Seq<char>| !names.contains(n);
    if more.len() == 0 {
        assert(names + more.filter(new) =~= names);
    } else {
        let rest = more.drop_last();
        let last = more.last();
        lemma_merged(names, rest);
        let before = names + rest.filter(new);
        assert(networks::merged_names(names, rest) == before);
        assert(!rest.contains(last)) by {
            if rest.contains(last) {
                let k = rest.index_of(last);
                assert(more[k] == more[more.len() - 1]);
            }
        }
        assert(!rest.filter(new).contains(last)) by {
            if rest.filter(new).contains(last) {
                rest.lemma_filter_contains_rev(new, last);
            }
        }
        if names.contains(last) {
            assert(before[names.index_of(last)] == last);
        } else {
            if before.contains(last) {
                let k = before.index_of(last);
                if k < names.len() {
                    assert(names[k] == last);
                } else {
                    assert(rest.filter(new)[k - names.len()] == last);
                }
            }
            assert(before.push(last) =~= names + rest.filter(new).push(last));
        }
    }
}

/// All of a list is new to an empty one.
pub proof fn everything_is_new_to_nothing(names: Seq<Seq<char>>)
    ensures
        names.filter(|n: Seq<char>| !Seq::<Seq<char>>::empty().contains(n)) == names,
    decreases names.len(),
{
    reveal(Seq::filter);
    if names.len() > 0 {
        everything_is_new_to_nothing(names.drop_last());
        assert(names.drop_last().push(names.last()) =~= names);
    }
}

/// Sorting keeps the names and their order, and puts the nodes of each network in order.
pub proof fn sorting_reorders_nodes_alone(table: NetworksModel, name: Seq<char>)
    ensures
        table.sorted().names == table.names,
        table.sorted().adapters.contains_key(name) <==> table.adapters.contains_key(name),
        table.adapters.contains_key(name) ==> table.sorted().adapters[name] == networks::by_cost(
            table.adapters[name],
        ),
{
}

/// A flattened table holds the nodes of one network after the other, in the order of the names,
/// each with the name of its network.
pub proof fn flattening_goes_network_by_network(table: NetworksModel, name: Seq<char>)
    ensures
        (NetworksModel { names: Seq::empty(), adapters: table.adapters }).flattened() == Seq::<
            (Seq<char>, AdapterModel),
        >::empty(),
        (NetworksModel {
            names: table.names.push(name),
            adapters: table.adapters,
        }).flattened() == table.flattened() + table.adapters[name].map_values(
            |a: AdapterModel| (name, a),
        ),
{
    let none = NetworksModel { names: Seq::empty(), adapters: table.adapters };
    let more = NetworksModel { names: table.names.push(name), adapters: table.adapters };
    let f = |n: Seq<char>| table.adapters[n].map_values(|a: AdapterModel| (n, a));
    let g = |n: Seq<char>| more.adapters[n].map_values(|a: AdapterModel| (n, a));
    let h = |n: Seq<char>| none.adapters[n].map_values(|a: AdapterModel| (n, a));
    assert(g =~= f);
    assert(h =~= f);
    table.names.lemma_flat_map_push(f, name);
    assert(none.names.flat_map(f) =~= Seq::<(Seq<char>, AdapterModel)>::empty());
}

} // verus!
