//! What holds of the table of networks as a whole.

use crate::capabilities::NodeCapabilities;
use crate::networks::{AdapterModel, NetworksModel};
use crate::networks;
use vstd::prelude::*;

verus! {

/// A node is found if and only if some node has the capabilities; the node that is found has
/// them, and no node before it has.
pub proof fn lookup_is_complete(adapters: Seq<AdapterModel>, required: NodeCapabilities)
    ensures
        networks::first_meeting(adapters, required) is Some <==> exists|i: int|
            0 <= i < adapters.len() && (#[trigger] adapters[i]).capabilities.covers(required),
        networks::first_meeting(adapters, required) matches Some(a) ==> exists|i: int|
            0 <= i < adapters.len() && #[trigger] adapters[i] == a && a.capabilities.covers(required)
                && forall|j: int|
                0 <= j < i ==> !(#[trigger] adapters[j]).capabilities.covers(required),
    decreases adapters.len(),
{
    if adapters.len() > 0 {
        let rest = adapters.drop_first();
        lookup_is_complete(rest, required);
        let found = networks::first_meeting(adapters, required);
        if adapters[0].capabilities.covers(required) {
            assert(adapters[0] == found->0);
        } else {
            assert forall|i: int|
                0 <= i < adapters.len() && (#[trigger] adapters[i]).capabilities.covers(
                    required,
                ) implies found is Some by {
                assert(rest[i - 1] == adapters[i]);
            }
            if found is Some {
                let k = choose|i: int|
                    0 <= i < rest.len() && #[trigger] rest[i] == found->0
                        && found->0.capabilities.covers(required) && forall|j: int|
                        0 <= j < i ==> !(#[trigger] rest[j]).capabilities.covers(required);
                assert(adapters[k + 1] == found->0);
                assert forall|j: int| 0 <= j < k + 1 implies !(
                #[trigger] adapters[j]).capabilities.covers(required) by {
                    if j > 0 {
                        assert(adapters[j] == rest[j - 1]);
                    }
                }
            }
        }
    }
}

/// Sorted nodes stand in order of their cost.
pub proof fn sorting_orders_by_cost(adapters: Seq<AdapterModel>, i: int, j: int)
    requires
        0 <= i <= j < adapters.len(),
    ensures
        networks::by_cost(adapters).len() == adapters.len(),
        networks::by_cost(adapters)[i].capabilities.cost() <= networks::by_cost(
            adapters,
        )[j].capabilities.cost(),
{
    networks::sorting_keeps_the_nodes(adapters);
    lemma_costs(adapters);
}

/// The three parts of sorted nodes cost nothing, one and two.
proof fn lemma_costs(adapters: Seq<AdapterModel>)
    ensures
        forall|k: int|
            0 <= k < networks::by_cost(adapters).len() ==> (#[trigger] networks::by_cost(
                adapters,
            )[k]).capabilities.cost() == (if k < networks::costing(adapters, 0).len() {
                0nat
            } else if k < networks::costing(adapters, 0).len() + networks::costing(
                adapters,
                1,
            ).len() {
                1
            } else {
                2
            }),
{
    let c0 = networks::costing(adapters, 0);
    let c1 = networks::costing(adapters, 1);
    let c2 = networks::costing(adapters, 2);
    lemma_costing(adapters, 0);
    lemma_costing(adapters, 1);
    lemma_costing(adapters, 2);
    assert forall|k: int| 0 <= k < networks::by_cost(adapters).len() implies (
    #[trigger] networks::by_cost(adapters)[k]).capabilities.cost() == (if k < c0.len() {
        0nat
    } else if k < c0.len() + c1.len() {
        1
    } else {
        2
    }) by {
        let s = networks::by_cost(adapters);
        if k < c0.len() {
            assert(s[k] == c0[k]);
        } else if k < c0.len() + c1.len() {
            assert(s[k] == c1[k - c0.len()]);
        } else {
            assert(s[k] == c2[k - c0.len() - c1.len()]);
        }
    }
}

/// A node is among the sorted ones if and only if it was among them before.
proof fn lemma_sorted_contains(adapters: Seq<AdapterModel>, a: AdapterModel)
    ensures
        networks::by_cost(adapters).contains(a) <==> adapters.contains(a),
{
    networks::sorting_keeps_the_nodes(adapters);
    vstd::seq_lib::to_multiset_contains(adapters, a);
    vstd::seq_lib::to_multiset_contains(networks::by_cost(adapters), a);
}

/// Sorting does not change which requirements can be met, and once the nodes are sorted the one
/// that is found costs no more than any other that has the capabilities.
pub proof fn sorted_lookup_is_cheapest(
    adapters: Seq<AdapterModel>,
    required: NodeCapabilities,
    other: AdapterModel,
)
    requires
        adapters.contains(other),
        other.capabilities.covers(required),
    ensures
        networks::first_meeting(adapters, required) is Some,
        networks::first_meeting(networks::by_cost(adapters), required) matches Some(a)
            && adapters.contains(a) && a.capabilities.covers(required) && a.capabilities.cost()
            <= other.capabilities.cost(),
{
    let sorted = networks::by_cost(adapters);
    lookup_is_complete(adapters, required);
    lookup_is_complete(sorted, required);
    lemma_sorted_contains(adapters, other);
    networks::sorting_keeps_the_nodes(adapters);
    let k = sorted.index_of(other);
    assert(0 <= k < sorted.len() && sorted[k] == other);
    let a = networks::first_meeting(sorted, required)->0;
    let i = choose|i: int|
        0 <= i < sorted.len() && #[trigger] sorted[i] == a && a.capabilities.covers(required)
            && forall|j: int|
            0 <= j < i ==> !(#[trigger] sorted[j]).capabilities.covers(required);
    assert(sorted[i] == a);
    assert(i <= k);
    lemma_sorted_contains(adapters, a);
    sorting_orders_by_cost(adapters, i, k);
}

/// Once the nodes are sorted, the first costs no more than any of them.
pub proof fn first_sorted_node_is_cheapest(adapters: Seq<AdapterModel>, other: AdapterModel)
    requires
        adapters.contains(other),
    ensures
        adapters.contains(networks::by_cost(adapters)[0]),
        networks::by_cost(adapters)[0].capabilities.cost() <= other.capabilities.cost(),
{
    let sorted = networks::by_cost(adapters);
    networks::sorting_keeps_the_nodes(adapters);
    lemma_sorted_contains(adapters, other);
    let k = sorted.index_of(other);
    assert(0 <= k < sorted.len() && sorted[k] == other);
    sorting_orders_by_cost(adapters, 0, k);
    assert(sorted.contains(sorted[0]));
    lemma_sorted_contains(adapters, sorted[0]);
}

/// Sorting makes no requirement meetable that was not.
pub proof fn sorting_adds_no_capability(adapters: Seq<AdapterModel>, required: NodeCapabilities)
    requires
        networks::first_meeting(adapters, required) is None,
    ensures
        networks::first_meeting(networks::by_cost(adapters), required) is None,
{
    let sorted = networks::by_cost(adapters);
    lookup_is_complete(adapters, required);
    lookup_is_complete(sorted, required);
    if networks::first_meeting(sorted, required) is Some {
        let i = choose|i: int|
            0 <= i < sorted.len() && (#[trigger] sorted[i]).capabilities.covers(required);
        assert(sorted.contains(sorted[i]));
        lemma_sorted_contains(adapters, sorted[i]);
        let k = adapters.index_of(sorted[i]);
        assert(adapters[k].capabilities.covers(required));
    }
}

/// Every node that is picked by its cost has that cost.
proof fn lemma_costing(adapters: Seq<AdapterModel>, cost: nat)
    ensures
        forall|k: int|
            0 <= k < networks::costing(adapters, cost).len() ==> (#[trigger] networks::costing(
                adapters,
                cost,
            )[k]).capabilities.cost() == cost,
    decreases adapters.len(),
{
    reveal(Seq::filter);
    if adapters.len() > 0 {
        lemma_costing(adapters.drop_last(), cost);
    }
}

/// Sorting sorted networks changes nothing.
pub proof fn sorting_is_idempotent(table: NetworksModel)
    ensures
        table.sorted().sorted() == table.sorted(),
{
    let once = table.sorted();
    let twice = once.sorted();
    assert(twice.adapters.dom() =~= once.adapters.dom());
    assert forall|n: Seq<char>| #[trigger] once.adapters.contains_key(
        n,
    ) implies twice.adapters[n] == once.adapters[n] by {
        assert(once.adapters[n] == networks::by_cost(table.adapters[n]));
        assert(twice.adapters[n] == networks::by_cost(once.adapters[n]));
        lemma_by_cost_idempotent(table.adapters[n]);
    }
    assert(twice.adapters =~= once.adapters);
}

/// Nodes that stand in order of their cost stay as they are.
proof fn lemma_by_cost_idempotent(adapters: Seq<AdapterModel>)
    ensures
        networks::by_cost(networks::by_cost(adapters)) == networks::by_cost(adapters),
{
    lemma_costing_sorted(adapters, 0);
    lemma_costing_sorted(adapters, 1);
    lemma_costing_sorted(adapters, 2);
}

/// Sorting keeps the nodes of one cost in their order.
proof fn lemma_costing_sorted(adapters: Seq<AdapterModel>, cost: nat)
    requires
        cost <= 2,
    ensures
        networks::costing(networks::by_cost(adapters), cost) == networks::costing(adapters, cost),
{
    let c0 = networks::costing(adapters, 0);
    let c1 = networks::costing(adapters, 1);
    let c2 = networks::costing(adapters, 2);
    let p = |a: AdapterModel| a.capabilities.cost() == cost;
    lemma_costing(adapters, 0);
    lemma_costing(adapters, 1);
    lemma_costing(adapters, 2);
    Seq::filter_distributes_over_add(c0 + c1, c2, p);
    Seq::filter_distributes_over_add(c0, c1, p);
    lemma_filter_uniform(c0, p, cost == 0);
    lemma_filter_uniform(c1, p, cost == 1);
    lemma_filter_uniform(c2, p, cost == 2);
    assert(c0.filter(p) + c1.filter(p) + c2.filter(p) =~= networks::costing(adapters, cost));
}

/// Nodes of the same cost keep their order when they are sorted.
pub proof fn sorting_keeps_the_order_of_equals(adapters: Seq<AdapterModel>, cost: nat)
    requires
        cost <= 2,
    ensures
        networks::by_cost(adapters).filter(|a: AdapterModel| a.capabilities.cost() == cost)
            == adapters.filter(|a: AdapterModel| a.capabilities.cost() == cost),
{
    lemma_costing_sorted(adapters, cost);
}

/// Filtering by what holds of every item, or of none, keeps everything or nothing.
proof fn lemma_filter_uniform(s: Seq<AdapterModel>, p: spec_fn(AdapterModel) -> bool, keep: bool)
    requires
        forall|i: int| 0 <= i < s.len() ==> p(#[trigger] s[i]) == keep,
    ensures
        s.filter(p) == (if keep {
            s
        } else {
            Seq::empty()
        }),
    decreases s.len(),
{
    reveal(Seq::filter);
    if s.len() > 0 {
        lemma_filter_uniform(s.drop_last(), p, keep);
        assert(s.drop_last().push(s.last()) =~= s);
    } else {
        assert(s.filter(p) =~= s);
    }
}

/// Every operation on the table keeps it valid: each network is listed once and has a node.
pub proof fn operations_keep_tables_valid(
    a: NetworksModel,
    b: NetworksModel,
    name: Seq<char>,
    adapter: AdapterModel,
)
    requires
        a.valid(),
        b.valid(),
    ensures
        NetworksModel::empty().valid(),
        a.inserted(name, adapter).valid(),
        a.extended(b).valid(),
        a.sorted().valid(),
{
    let grown = a.inserted(name, adapter);
    lemma_with_name(a.names, name);
    assert(grown.valid());
    extending_keeps_tables_valid(a, b);
    sorting_keeps_tables_valid(a);
}

/// Extending a table keeps it valid.
pub proof fn extending_keeps_tables_valid(a: NetworksModel, b: NetworksModel)
    requires
        a.valid(),
        b.valid(),
    ensures
        a.extended(b).valid(),
{
    let both = a.extended(b);
    lemma_merged_names(a.names, b.names);
    assert(both.valid());
}

/// Sorting a table keeps it valid.
pub proof fn sorting_keeps_tables_valid(table: NetworksModel)
    requires
        table.valid(),
    ensures
        table.sorted().valid(),
{
    let sorted = table.sorted();
    assert forall|n: Seq<char>| #[trigger] sorted.adapters.contains_key(
        n,
    ) implies sorted.adapters[n].len() > 0 by {
        assert(table.adapters.contains_key(n));
        networks::sorting_keeps_the_nodes(table.adapters[n]);
    }
}

/// Adding a name keeps names apart, and adds that name alone.
proof fn lemma_with_name(names: Seq<Seq<char>>, name: Seq<char>)
    requires
        names.no_duplicates(),
    ensures
        networks::with_name(names, name).no_duplicates(),
        forall|n: Seq<char>| #[trigger]
            networks::with_name(names, name).contains(n) <==> names.contains(n) || n == name,
{
    let all = networks::with_name(names, name);
    assert forall|n: Seq<char>| #[trigger] all.contains(n) <==> names.contains(n) || n == name by {
        if names.contains(n) {
            assert(all[names.index_of(n)] == n);
        }
        if n == name && !names.contains(name) {
            assert(all[names.len() as int] == n);
        }
    }
}

/// Merging keeps names apart, and holds the names of both.
proof fn lemma_merged_names(names: Seq<Seq<char>>, more: Seq<Seq<char>>)
    requires
        names.no_duplicates(),
    ensures
        networks::merged_names(names, more).no_duplicates(),
        forall|n: Seq<char>| #[trigger]
            networks::merged_names(names, more).contains(n) <==> names.contains(n)
                || more.contains(n),
    decreases more.len(),
{
    if more.len() > 0 {
        lemma_merged_names(names, more.drop_last());
        lemma_with_name(networks::merged_names(names, more.drop_last()), more.last());
        assert forall|n: Seq<char>| #[trigger] more.contains(n) <==> more.drop_last().contains(n)
            || n == more.last() by {
            if more.contains(n) {
                let k = more.index_of(n);
                if k < more.len() - 1 {
                    assert(more.drop_last()[k] == n);
                }
            }
            if more.drop_last().contains(n) {
                assert(more[more.drop_last().index_of(n)] == n);
            }
            if n == more.last() {
                assert(more[more.len() - 1] == n);
            }
        }
    }
}

/// What was inserted can be looked up: once a node is in the table, its network serves every
/// request that needs no more than the node has, and the other networks are as they were.
pub proof fn inserted_nodes_are_found(
    table: NetworksModel,
    name: Seq<char>,
    adapter: AdapterModel,
    required: NodeCapabilities,
    other: Seq<char>,
)
    requires
        adapter.capabilities.covers(required),
        other != name,
    ensures
        table.inserted(name, adapter).adapters.contains_key(name),
        networks::first_meeting(
            table.inserted(name, adapter).adapters[name],
            required,
        ) is Some,
        table.inserted(name, adapter).adapters_of(other) == table.adapters_of(other),
{
    let adapters = table.inserted(name, adapter).adapters[name];
    lookup_is_complete(adapters, required);
    assert(adapters.last() == adapter);
    assert(adapters[adapters.len() - 1].capabilities.covers(required));
}

/// Extending takes over every network of the other table as it is there, and leaves the networks
/// that the other table does not know as they were.
pub proof fn extending_prefers_the_newcomer(a: NetworksModel, b: NetworksModel, name: Seq<char>)
    ensures
        a.extended(b).adapters_of(name) == (if b.adapters.contains_key(name) {
            b.adapters_of(name)
        } else {
            a.adapters_of(name)
        }),
        a.extended(NetworksModel::empty()) == a,
{
    assert(a.extended(NetworksModel::empty()).adapters =~= a.adapters);
}

} // verus!
